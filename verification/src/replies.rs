//! The keyword reply table and the reply matcher.
//!
//! The table maps keywords to pools of canned replies.  Keywords are kept in
//! strictly increasing lexicographic order, because the matcher walks them in
//! *reverse* order and answers from the first keyword the mention text
//! contains: of several matching keywords, the lexicographically greatest
//! wins.
use vstd::prelude::*;

use crate::ids;
use crate::rng;
use crate::text;
use crate::text::{contains_seq, lex_lt};

verus! {

/// One canned reply.
pub struct ReplyEntry {
    pub id: u128,
    pub text: Vec<u8>,
}

/// All replies of one keyword.
pub struct KeywordReplies {
    pub keyword: Vec<u8>,
    pub replies: Vec<ReplyEntry>,
}

/// The mathematical content of one reply pool: id to reply text.
pub open spec fn replies_map(rs: Seq<ReplyEntry>) -> Map<u128, Seq<u8>> {
    Map::new(
        |id: u128| exists|i: int| 0 <= i < rs.len() && rs[i].id == id,
        |id: u128|
            {
                let i = choose|i: int| 0 <= i < rs.len() && rs[i].id == id;
                rs[i].text@
            },
    )
}

/// The keyword table as a mathematical object: keyword to reply pool.
pub type ReplyMapView = Map<Seq<u8>, Map<u128, Seq<u8>>>;

/// The operator-configured reply table.
pub struct ReplyTable {
    groups: Vec<KeywordReplies>,
}

/// `k` is a table keyword that the mention text contains.
pub open spec fn spec_matched(tbl: ReplyMapView, mention: Seq<u8>, k: Seq<u8>) -> bool {
    tbl.contains_key(k) && contains_seq(mention, k)
}

/// `k` is the winning keyword for the mention text: it matches, and every
/// other matching keyword sorts lexicographically before it.
pub open spec fn spec_wins(tbl: ReplyMapView, mention: Seq<u8>, k: Seq<u8>) -> bool {
    &&& spec_matched(tbl, mention, k)
    &&& forall|k2: Seq<u8>| spec_matched(tbl, mention, k2) ==> k2 == k || lex_lt(k2, k)
}

/// `t` is a correct keyword reply to the mention: it comes from the pool of
/// the winning keyword.
pub open spec fn spec_keyword_reply(tbl: ReplyMapView, mention: Seq<u8>, t: Seq<u8>) -> bool {
    exists|k: Seq<u8>|
        #[trigger] spec_wins(tbl, mention, k) && exists|id: u128|
            tbl[k].contains_key(id) && tbl[k][id] == t
}

/// The table yields no keyword reply to the mention: nothing matches, or
/// the winning keyword's pool is empty.
pub open spec fn spec_no_keyword_reply(tbl: ReplyMapView, mention: Seq<u8>) -> bool {
    (forall|k: Seq<u8>| !spec_matched(tbl, mention, k)) || (exists|k: Seq<u8>|
        #[trigger] spec_wins(tbl, mention, k) && forall|id: u128| !tbl[k].contains_key(id))
}

/// The position of the group holding keyword `k`.
pub open spec fn group_index_of(gs: Seq<KeywordReplies>, k: Seq<u8>) -> int {
    choose|i: int| 0 <= i < gs.len() && gs[i].keyword@ == k
}

/// The table a sequence of keyword groups denotes.
pub open spec fn groups_view(gs: Seq<KeywordReplies>) -> ReplyMapView {
    Map::new(
        |k: Seq<u8>| exists|i: int| 0 <= i < gs.len() && gs[i].keyword@ == k,
        |k: Seq<u8>| replies_map(gs[group_index_of(gs, k)].replies@),
    )
}

impl View for ReplyTable {
    type V = ReplyMapView;

    closed spec fn view(&self) -> ReplyMapView {
        groups_view(self.groups@)
    }
}

impl ReplyTable {
    /// Keywords strictly increase lexicographically, and within each pool
    /// the reply ids are pairwise distinct.
    pub closed spec fn wf(&self) -> bool {
        &&& forall|p: int, q: int|
            0 <= p < q < self.groups@.len() ==> lex_lt(
                self.groups@[p].keyword@,
                self.groups@[q].keyword@,
            )
        &&& forall|g: int|
            0 <= g < self.groups@.len() ==> inner_unique(#[trigger] self.groups@[g].replies@)
    }

    /// An empty table: no keyword matches anything.
    pub fn new() -> (r: ReplyTable)
        ensures
            r.wf(),
            r@ == Map::<Seq<u8>, Map<u128, Seq<u8>>>::empty(),
    {
        let r = ReplyTable { groups: Vec::new() };
        proof {
            assert(r@ =~= Map::<Seq<u8>, Map<u128, Seq<u8>>>::empty());
        }
        r
    }

    /// The groups in keyword order, for display and for writing the table
    /// back to the store.
    pub fn groups(&self) -> (r: &Vec<KeywordReplies>)
        requires
            self.wf(),
        ensures
            groups_view(r@) == self@,
            forall|p: int, q: int|
                0 <= p < q < r@.len() ==> lex_lt(r@[p].keyword@, r@[q].keyword@),
    {
        &self.groups
    }

    /// Produces at most one reply to a mention: a uniformly random reply of
    /// the winning keyword.
    ///
    /// Returns `None` exactly when no keyword of the table occurs in the
    /// mention text, or the winning keyword's pool is empty.
    pub fn get_reply(&self, mention: &[u8]) -> (r: Option<Vec<u8>>)
        requires
            self.wf(),
        ensures
            match r {
                Some(t) => spec_keyword_reply(self@, mention@, t@),
                None => spec_no_keyword_reply(self@, mention@),
            },
    {
        let n = self.groups.len();
        let mut j: usize = n;
        while j > 0
            invariant
                self.wf(),
                n == self.groups@.len(),
                j <= n,
                forall|idx: int|
                    j <= idx < n ==> !contains_seq(mention@, #[trigger] self.groups@[idx].keyword@),
            decreases j,
        {
            j = j - 1;
            if text::contains_bytes(mention, self.groups[j].keyword.as_slice()) {
                let ghost k = self.groups@[j as int].keyword@;
                proof {
                    self.lemma_wins_at(mention@, j as int);
                }
                let g = &self.groups[j];
                if g.replies.len() == 0 {
                    proof {
                        assert(self@[k] == replies_map(g.replies@)) by {
                            self.lemma_view_index(j as int);
                        }
                        assert(forall|id: u128| !replies_map(g.replies@).contains_key(id));
                    }
                    return None;
                }
                let pick = rng::random_in(0, (g.replies.len() - 1) as u64) as usize;
                let ghost id = g.replies@[pick as int].id;
                let mut out: Vec<u8> = Vec::new();
                text::append_bytes(&mut out, g.replies[pick].text.as_slice());
                proof {
                    self.lemma_view_index(j as int);
                    assert(replies_map(g.replies@).contains_key(id));
                    let i = choose|i: int| 0 <= i < g.replies@.len() && g.replies@[i].id == id;
                    assert(inner_unique(g.replies@));
                    assert(i == pick as int);
                    assert(self@[k][id] == out@);
                }
                return Some(out);
            }
        }
        proof {
            assert forall|k: Seq<u8>| !spec_matched(self@, mention@, k) by {
                if self@.contains_key(k) {
                    let i = choose|i: int|
                        0 <= i < self.groups@.len() && self.groups@[i].keyword@ == k;
                    assert(!contains_seq(mention@, self.groups@[i].keyword@));
                }
            }
        }
        None
    }

    /// The table's entry for the keyword of group `i` is that group's pool.
    proof fn lemma_view_index(&self, i: int)
        requires
            self.wf(),
            0 <= i < self.groups@.len(),
        ensures
            self@.contains_key(self.groups@[i].keyword@),
            self@[self.groups@[i].keyword@] == replies_map(self.groups@[i].replies@),
    {
        let gs = self.groups@;
        let k = gs[i].keyword@;
        assert(self@.contains_key(k));
        let w = i;
        let i = group_index_of(gs, k);
        assert(0 <= i < gs.len() && gs[i].keyword@ == k);
        if w < i {
            assert(lex_lt(gs[w].keyword@, gs[i].keyword@));
            lemma_lex_irrefl(k);
        }
        if i < w {
            assert(lex_lt(gs[i].keyword@, gs[w].keyword@));
            lemma_lex_irrefl(k);
        }
        assert(i == w);
        assert(self@[k] == replies_map(gs[i].replies@));
    }

    /// If group `j` matches and no later group does, its keyword wins.
    proof fn lemma_wins_at(&self, mention: Seq<u8>, j: int)
        requires
            self.wf(),
            0 <= j < self.groups@.len(),
            contains_seq(mention, self.groups@[j].keyword@),
            forall|idx: int|
                j < idx < self.groups@.len() ==> !contains_seq(
                    mention,
                    #[trigger] self.groups@[idx].keyword@,
                ),
        ensures
            spec_wins(self@, mention, self.groups@[j].keyword@),
    {
        let k = self.groups@[j].keyword@;
        self.lemma_view_index(j);
        assert forall|k2: Seq<u8>| spec_matched(self@, mention, k2) implies k2 == k || lex_lt(
            k2,
            k,
        ) by {
            let i = choose|i: int| 0 <= i < self.groups@.len() && self.groups@[i].keyword@ == k2;
            if i > j {
                assert(!contains_seq(mention, self.groups@[i].keyword@));
            }
        }
    }

    /// Adds one reply under `keyword`, creating the keyword's pool if it is
    /// new and replacing any reply with the same id.
    pub fn insert_reply(&mut self, keyword: &[u8], id: u128, reply: Vec<u8>)
        requires
            old(self).wf(),
        ensures
            final(self).wf(),
            final(self)@ == old(self)@.insert(
                keyword@,
                if old(self)@.contains_key(keyword@) {
                    old(self)@[keyword@].insert(id, reply@)
                } else {
                    Map::<u128, Seq<u8>>::empty().insert(id, reply@)
                },
            ),
    {
        let n = self.groups.len();
        let mut p: usize = 0;
        while p < n
            invariant
                self == old(self),
                old(self).wf(),
                n == self.groups@.len(),
                p <= n,
                forall|q: int| 0 <= q < p ==> lex_lt(#[trigger] self.groups@[q].keyword@, keyword@),
            decreases n - p,
        {
            if text::bytes_eq(self.groups[p].keyword.as_slice(), keyword) {
                // existing keyword: upsert into its pool
                let ghost old_groups = self.groups@;
                let ghost old_inner = self.groups@[p as int].replies@;
                proof {
                    self.lemma_view_index(p as int);
                }
                let group = &mut self.groups[p];
                upsert_entry(&mut group.replies, id, reply);
                proof {
                    lemma_view_after_pool_change(old(self), self, p as int, keyword@);
                    assert(old(self)@[keyword@] == replies_map(old_inner));
                    assert(replies_map(self.groups@[p as int].replies@) == replies_map(
                        old_inner,
                    ).insert(id, reply@));
                }
                return ;
            }
            if text::lex_less(keyword, self.groups[p].keyword.as_slice()) {
                // keyword sorts before group p: insert a new group here
                let mut replies: Vec<ReplyEntry> = Vec::new();
                replies.push(ReplyEntry { id, text: reply });
                let ghost rep = reply@;
                self.groups.insert(p, KeywordReplies { keyword: slice_to_vec(keyword), replies });
                proof {
                    assert forall|q: int|
                        p as int <= q < old(self).groups@.len() implies lex_lt(
                        keyword@,
                        #[trigger] old(self).groups@[q].keyword@,
                    ) by {
                        if q > p {
                            lemma_lex_trans(
                                keyword@,
                                old(self).groups@[p as int].keyword@,
                                old(self).groups@[q].keyword@,
                            );
                        }
                    }
                    lemma_replies_singleton(self.groups@[p as int].replies@, id, rep);
                    lemma_view_after_group_insert(old(self), self, p as int, keyword@);
                    if old(self)@.contains_key(keyword@) {
                        let i = choose|i: int|
                            0 <= i < old(self).groups@.len() && old(self).groups@[i].keyword@
                                == keyword@;
                        if i < p {
                            assert(lex_lt(old(self).groups@[i].keyword@, keyword@));
                        }
                        lemma_lex_irrefl(keyword@);
                    }
                }
                return ;
            }
            proof {
                lemma_lex_total(self.groups@[p as int].keyword@, keyword@);
            }
            p = p + 1;
        }
        // keyword sorts after every group: append a new group
        let mut replies: Vec<ReplyEntry> = Vec::new();
        replies.push(ReplyEntry { id, text: reply });
        let ghost rep = reply@;
        self.groups.push(KeywordReplies { keyword: slice_to_vec(keyword), replies });
        proof {
            assert(self.groups@ =~= old(self).groups@.insert(
                old(self).groups@.len() as int,
                self.groups@.last(),
            ));
            lemma_replies_singleton(
                self.groups@[old(self).groups@.len() as int].replies@,
                id,
                rep,
            );
            lemma_view_after_group_insert(old(self), self, old(self).groups@.len() as int, keyword@);
            if old(self)@.contains_key(keyword@) {
                let i = choose|i: int|
                    0 <= i < old(self).groups@.len() && old(self).groups@[i].keyword@ == keyword@;
                assert(lex_lt(old(self).groups@[i].keyword@, keyword@));
                lemma_lex_irrefl(keyword@);
            }
        }
    }

    /// Deletes the reply `id` under `keyword`.  A missing keyword or id
    /// changes nothing; the keyword's pool stays, possibly empty.
    pub fn delete_reply(&mut self, keyword: &[u8], id: u128)
        requires
            old(self).wf(),
        ensures
            final(self).wf(),
            final(self)@ == if old(self)@.contains_key(keyword@) {
                old(self)@.insert(keyword@, old(self)@[keyword@].remove(id))
            } else {
                old(self)@
            },
    {
        let n = self.groups.len();
        let mut p: usize = 0;
        while p < n
            invariant
                self == old(self),
                old(self).wf(),
                n == self.groups@.len(),
                p <= n,
                forall|q: int| 0 <= q < p ==> self.groups@[q].keyword@ != keyword@,
            decreases n - p,
        {
            if text::bytes_eq(self.groups[p].keyword.as_slice(), keyword) {
                let ghost old_inner = self.groups@[p as int].replies@;
                proof {
                    self.lemma_view_index(p as int);
                }
                let group = &mut self.groups[p];
                remove_entry(&mut group.replies, id);
                proof {
                    lemma_view_after_pool_change(old(self), self, p as int, keyword@);
                    assert(old(self)@[keyword@] == replies_map(old_inner));
                }
                return ;
            }
            p = p + 1;
        }
        proof {
            // the keyword is absent: a group holding it would have been
            // found by the scan
            if old(self)@.contains_key(keyword@) {
                let i = choose|i: int|
                    0 <= i < old(self).groups@.len() && old(self).groups@[i].keyword@ == keyword@;
                assert(false);
            }
        }
    }

    /// Deletes `keyword` and all its replies.  A missing keyword changes
    /// nothing.
    pub fn delete_keyword(&mut self, keyword: &[u8])
        requires
            old(self).wf(),
        ensures
            final(self).wf(),
            final(self)@ == old(self)@.remove(keyword@),
    {
        let n = self.groups.len();
        let mut p: usize = 0;
        while p < n
            invariant
                self == old(self),
                old(self).wf(),
                n == self.groups@.len(),
                p <= n,
                forall|q: int| 0 <= q < p ==> self.groups@[q].keyword@ != keyword@,
            decreases n - p,
        {
            if text::bytes_eq(self.groups[p].keyword.as_slice(), keyword) {
                self.groups.remove(p);
                proof {
                    lemma_view_after_group_remove(old(self), self, p as int, keyword@);
                }
                return ;
            }
            p = p + 1;
        }
        proof {
            assert forall|k2: Seq<u8>| #[trigger]
                self@.contains_key(k2) == old(self)@.remove(keyword@).contains_key(k2) && (
            self@.contains_key(k2) ==> self@[k2] == old(self)@.remove(keyword@)[k2]) by {
                if k2 == keyword@ {
                    if self@.contains_key(k2) {
                        let i = choose|i: int|
                            0 <= i < self.groups@.len() && self.groups@[i].keyword@ == k2;
                    }
                }
            }
            assert(self@ =~= old(self)@.remove(keyword@));
        }
    }

    /// Makes sure `keyword` has a pool, creating an empty one if it is new.
    fn ensure_group(&mut self, keyword: &[u8])
        requires
            old(self).wf(),
        ensures
            final(self).wf(),
            final(self)@ == old(self)@.insert(
                keyword@,
                if old(self)@.contains_key(keyword@) {
                    old(self)@[keyword@]
                } else {
                    Map::<u128, Seq<u8>>::empty()
                },
            ),
            final(self)@.contains_key(keyword@),
    {
        let n = self.groups.len();
        let mut p: usize = 0;
        while p < n
            invariant
                self == old(self),
                old(self).wf(),
                n == self.groups@.len(),
                p <= n,
                forall|q: int| 0 <= q < p ==> lex_lt(#[trigger] self.groups@[q].keyword@, keyword@),
            decreases n - p,
        {
            if text::bytes_eq(self.groups[p].keyword.as_slice(), keyword) {
                proof {
                    self.lemma_view_index(p as int);
                    assert(self@ =~= self@.insert(keyword@, self@[keyword@]));
                }
                return ;
            }
            if text::lex_less(keyword, self.groups[p].keyword.as_slice()) {
                let replies: Vec<ReplyEntry> = Vec::new();
                self.groups.insert(p, KeywordReplies { keyword: slice_to_vec(keyword), replies });
                proof {
                    assert forall|q: int|
                        p as int <= q < old(self).groups@.len() implies lex_lt(
                        keyword@,
                        #[trigger] old(self).groups@[q].keyword@,
                    ) by {
                        if q > p {
                            lemma_lex_trans(
                                keyword@,
                                old(self).groups@[p as int].keyword@,
                                old(self).groups@[q].keyword@,
                            );
                        }
                    }
                    assert(replies_map(self.groups@[p as int].replies@) =~= Map::<
                        u128,
                        Seq<u8>,
                    >::empty());
                    lemma_view_after_group_insert(old(self), self, p as int, keyword@);
                    if old(self)@.contains_key(keyword@) {
                        let i = choose|i: int|
                            0 <= i < old(self).groups@.len() && old(self).groups@[i].keyword@
                                == keyword@;
                        if i < p {
                            assert(lex_lt(old(self).groups@[i].keyword@, keyword@));
                        }
                        lemma_lex_irrefl(keyword@);
                    }
                    self.lemma_view_index(p as int);
                }
                return ;
            }
            proof {
                lemma_lex_total(self.groups@[p as int].keyword@, keyword@);
            }
            p = p + 1;
        }
        let replies: Vec<ReplyEntry> = Vec::new();
        self.groups.push(KeywordReplies { keyword: slice_to_vec(keyword), replies });
        proof {
            assert(self.groups@ =~= old(self).groups@.insert(
                old(self).groups@.len() as int,
                self.groups@.last(),
            ));
            assert(replies_map(self.groups@[old(self).groups@.len() as int].replies@) =~= Map::<
                u128,
                Seq<u8>,
            >::empty());
            lemma_view_after_group_insert(old(self), self, old(self).groups@.len() as int, keyword@);
            if old(self)@.contains_key(keyword@) {
                let i = choose|i: int|
                    0 <= i < old(self).groups@.len() && old(self).groups@[i].keyword@ == keyword@;
                assert(lex_lt(old(self).groups@[i].keyword@, keyword@));
                lemma_lex_irrefl(keyword@);
            }
            self.lemma_view_index(old(self).groups@.len() as int);
        }
    }

    /// Adds a batch of replies under `keyword`, allocating a fresh run of
    /// identifiers for them.  The keyword's pool is created even when the
    /// batch is empty; existing replies of other ids stay.
    pub fn add_replies(&mut self, keyword: &[u8], texts: Vec<Vec<u8>>)
        requires
            old(self).wf(),
        ensures
            final(self).wf(),
            exists|seed: u128|
                final(self)@ == old(self)@.insert(
                    keyword@,
                    spec_pool_extended(
                        if old(self)@.contains_key(keyword@) {
                            old(self)@[keyword@]
                        } else {
                            Map::<u128, Seq<u8>>::empty()
                        },
                        ids::spec_id_batch(seed, texts@.len() as nat),
                        texts@.map_values(|t: Vec<u8>| t@),
                    ),
                ),
    {
        let ghost m0 = old(self)@;
        let ghost pool0: Map<u128, Seq<u8>> = if old(self)@.contains_key(keyword@) {
            old(self)@[keyword@]
        } else {
            Map::<u128, Seq<u8>>::empty()
        };
        let ghost tviews = texts@.map_values(|t: Vec<u8>| t@);
        self.ensure_group(keyword);
        let seed = ids::fresh_id();
        let ghost count = texts@.len() as nat;
        let ghost batch = ids::spec_id_batch(seed, count);
        proof {
            ids::lemma_id_batch_len(seed, count);
        }
        let mut id: u128 = seed;
        let mut rest = texts;
        let n = rest.len();
        let mut i: usize = 0;
        while i < n
            invariant
                self.wf(),
                n == tviews.len(),
                batch == ids::spec_id_batch(seed, tviews.len() as nat),
                batch.len() == tviews.len(),
                i <= n,
                rest@.len() == n - i,
                forall|k: int| 0 <= k < rest@.len() ==> rest@[k]@ == tviews[i + k],
                self@ == m0.insert(
                    keyword@,
                    spec_pool_extended(pool0, batch.take(i as int), tviews.take(i as int)),
                ),
                id == if i == 0 {
                    seed
                } else {
                    batch[i - 1]
                },
            decreases n - i,
        {
            let t = rest.remove(0);
            id = ids::succ_id(id);
            proof {
                ids::lemma_id_batch_index(seed, tviews.len() as nat, i as int);
                assert(id == batch[i as int]);
            }
            let ghost before = self@;
            self.insert_reply(keyword, id, t);
            proof {
                assert(before.contains_key(keyword@));
                assert(batch.take(i + 1).drop_last() =~= batch.take(i as int));
                assert(tviews.take(i + 1).drop_last() =~= tviews.take(i as int));
                assert(before[keyword@] == spec_pool_extended(
                    pool0,
                    batch.take(i as int),
                    tviews.take(i as int),
                ));
                assert(self@ =~= m0.insert(
                    keyword@,
                    spec_pool_extended(pool0, batch.take(i + 1), tviews.take(i + 1)),
                ));
            }
            i = i + 1;
        }
        proof {
            assert(batch.take(n as int) =~= batch);
            assert(tviews.take(n as int) =~= tviews);
        }
    }
}

/// Reply ids of one pool are pairwise distinct.
pub open spec fn inner_unique(rs: Seq<ReplyEntry>) -> bool {
    forall|p: int, q: int| 0 <= p < q < rs.len() ==> rs[p].id != rs[q].id
}

/// Copies a byte slice into an owned vector.
fn slice_to_vec(s: &[u8]) -> (r: Vec<u8>)
    ensures
        r@ == s@,
{
    let mut r: Vec<u8> = Vec::new();
    text::append_bytes(&mut r, s);
    r
}

/// Adds or replaces the entry for `id` in one reply pool.
fn upsert_entry(rs: &mut Vec<ReplyEntry>, id: u128, reply: Vec<u8>)
    requires
        inner_unique(old(rs)@),
    ensures
        inner_unique(final(rs)@),
        replies_map(final(rs)@) == replies_map(old(rs)@).insert(id, reply@),
{
    let n = rs.len();
    let mut i: usize = 0;
    while i < n
        invariant
            rs == old(rs),
            inner_unique(rs@),
            n == rs@.len(),
            i <= n,
            forall|k: int| 0 <= k < i ==> rs@[k].id != id,
        decreases n - i,
    {
        if rs[i].id == id {
            rs[i] = ReplyEntry { id, text: reply };
            proof {
                assert forall|x: u128| #[trigger]
                    replies_map(rs@).contains_key(x) == replies_map(old(rs)@).insert(
                        id,
                        reply@,
                    ).contains_key(x) && (replies_map(rs@).contains_key(x) ==> replies_map(rs@)[x]
                    == replies_map(old(rs)@).insert(id, reply@)[x]) by {
                    lemma_replies_upsert_point(old(rs)@, rs@, i as int, id, reply@, x);
                }
                assert(replies_map(rs@) =~= replies_map(old(rs)@).insert(id, reply@));
            }
            return ;
        }
        i = i + 1;
    }
    rs.push(ReplyEntry { id, text: reply });
    proof {
        assert forall|x: u128| #[trigger]
            replies_map(rs@).contains_key(x) == replies_map(old(rs)@).insert(
                id,
                reply@,
            ).contains_key(x) && (replies_map(rs@).contains_key(x) ==> replies_map(rs@)[x]
            == replies_map(old(rs)@).insert(id, reply@)[x]) by {
            lemma_replies_push_point(old(rs)@, rs@, id, reply@, x);
        }
        assert(replies_map(rs@) =~= replies_map(old(rs)@).insert(id, reply@));
    }
}

/// A raw reply record from the store: identifier string and reply text.
pub struct StoredReply {
    pub key: Vec<u8>,
    pub text: Vec<u8>,
}

impl View for StoredReply {
    type V = (Seq<u8>, Seq<u8>);

    open spec fn view(&self) -> (Seq<u8>, Seq<u8>) {
        (self.key@, self.text@)
    }
}

/// One keyword's raw reply records from the store.
pub struct StoredReplyGroup {
    pub keyword: Vec<u8>,
    pub entries: Vec<StoredReply>,
}

impl View for StoredReplyGroup {
    type V = (Seq<u8>, Seq<(Seq<u8>, Seq<u8>)>);

    open spec fn view(&self) -> (Seq<u8>, Seq<(Seq<u8>, Seq<u8>)>) {
        (self.keyword@, self.entries@.map_values(|e: StoredReply| e@))
    }
}

/// Every reply key of the raw data is a well-formed identifier string.
pub open spec fn stored_ids_valid(gs: Seq<(Seq<u8>, Seq<(Seq<u8>, Seq<u8>)>)>) -> bool {
    forall|g: int, e: int|
        0 <= g < gs.len() && 0 <= e < gs[g].1.len() ==> (#[trigger] gs[g].1[e].0).len() == 26
            && ids::id_chars_valid(gs[g].1[e].0)
}

/// The pool a list of raw records denotes, later records shadowing earlier.
pub open spec fn spec_pool_of(es: Seq<(Seq<u8>, Seq<u8>)>) -> Map<u128, Seq<u8>>
    decreases es.len(),
{
    if es.len() == 0 {
        Map::empty()
    } else {
        spec_pool_of(es.drop_last()).insert(ids::id_fold(es.last().0), es.last().1)
    }
}

/// The table the raw store data denotes.
pub open spec fn spec_table_of(gs: Seq<(Seq<u8>, Seq<(Seq<u8>, Seq<u8>)>)>) -> ReplyMapView
    decreases gs.len(),
{
    if gs.len() == 0 {
        Map::empty()
    } else {
        spec_table_of(gs.drop_last()).insert(gs.last().0, spec_pool_of(gs.last().1))
    }
}

/// Every keyword of `spec_table_of` comes from some group.
proof fn lemma_spec_table_domain(gs: Seq<(Seq<u8>, Seq<(Seq<u8>, Seq<u8>)>)>, k: Seq<u8>)
    requires
        spec_table_of(gs).contains_key(k),
    ensures
        exists|i: int| 0 <= i < gs.len() && gs[i].0 == k,
    decreases gs.len(),
{
    if gs.len() > 0 {
        if gs.last().0 == k {
            assert(gs[gs.len() - 1].0 == k);
        } else {
            lemma_spec_table_domain(gs.drop_last(), k);
            let i = choose|i: int| 0 <= i < gs.drop_last().len() && gs.drop_last()[i].0 == k;
            assert(gs[i].0 == k);
        }
    }
}

/// Rebuilds the table from the raw store data, exactly as stored when every
/// reply key is a well-formed identifier, and empty otherwise: undecodable
/// stored data degrades to a table that matches nothing.
pub fn table_from_store(raw: Vec<StoredReplyGroup>) -> (r: ReplyTable)
    requires
        forall|p: int, q: int|
            0 <= p < q < raw@.len() ==> raw@[p].keyword@ != raw@[q].keyword@,
    ensures
        r.wf(),
        r@ == if stored_ids_valid(raw@.map_values(|g: StoredReplyGroup| g@)) {
            spec_table_of(raw@.map_values(|g: StoredReplyGroup| g@))
        } else {
            Map::<Seq<u8>, Map<u128, Seq<u8>>>::empty()
        },
{
    let ghost target = raw@.map_values(|g: StoredReplyGroup| g@);
    let mut table = ReplyTable::new();
    let mut rest = raw;
    let n = rest.len();
    let mut g: usize = 0;
    while g < n
        invariant
            target == raw@.map_values(|g2: StoredReplyGroup| g2@),
            n == target.len(),
            g <= n,
            rest@.len() == n - g,
            forall|k: int| 0 <= k < rest@.len() ==> rest@[k]@ == target[g + k],
            forall|p: int, q: int| 0 <= p < q < target.len() ==> target[p].0 != target[q].0,
            table.wf(),
            table@ == spec_table_of(target.take(g as int)),
            stored_ids_valid(target.take(g as int)),
        decreases n - g,
    {
        let grp = rest.remove(0);
        assert(grp@ == target[g as int]);
        let ghost m_before = table@;
        proof {
            // keywords are pairwise distinct, so this group's keyword is
            // new to the table built so far
            if m_before.contains_key(grp.keyword@) {
                lemma_spec_table_domain(target.take(g as int), grp.keyword@);
                let i = choose|i: int|
                    0 <= i < target.take(g as int).len() && target.take(g as int)[i].0
                        == grp.keyword@;
                assert(target[i].0 == target[g as int].0);
                assert(false);
            }
        }
        table.ensure_group(grp.keyword.as_slice());
        let ghost eviews = grp.entries@.map_values(|e: StoredReply| e@);
        let mut erest = grp.entries;
        let en = erest.len();
        let mut e: usize = 0;
        while e < en
            invariant
                target == raw@.map_values(|g2: StoredReplyGroup| g2@),
                en == eviews.len(),
                0 <= g < target.len(),
                eviews == target[g as int].1,
                e <= en,
                erest@.len() == en - e,
                forall|k: int| 0 <= k < erest@.len() ==> erest@[k]@ == eviews[e + k],
                table.wf(),
                table@ == m_before.insert(grp.keyword@, spec_pool_of(eviews.take(e as int))),
                forall|k: int|
                    0 <= k < e ==> (#[trigger] eviews[k].0).len() == 26 && ids::id_chars_valid(
                        eviews[k].0,
                    ),
            decreases en - e,
        {
            let entry = erest.remove(0);
            assert(entry@ == eviews[e as int]);
            match ids::parse_id(entry.key.as_slice()) {
                Ok(id) => {
                    table.insert_reply(grp.keyword.as_slice(), id, entry.text);
                    proof {
                        assert(eviews.take(e + 1).drop_last() =~= eviews.take(e as int));
                        assert(table@ =~= m_before.insert(
                            grp.keyword@,
                            spec_pool_of(eviews.take(e + 1)),
                        ));
                    }
                },
                Err(_) => {
                    proof {
                        assert(eviews[e as int].0 == entry.key@);
                        assert(target[g as int].1[e as int] == eviews[e as int]);
                        assert(!(target[g as int].1[e as int].0.len() == 26 && ids::id_chars_valid(
                            target[g as int].1[e as int].0,
                        )));
                        assert(!stored_ids_valid(target));
                    }
                    return ReplyTable::new();
                },
            }
            e = e + 1;
        }
        proof {
            assert(eviews.take(en as int) =~= eviews);
            assert(target.take(g + 1).drop_last() =~= target.take(g as int));
            assert(table@ == spec_table_of(target.take(g + 1)));
            assert forall|gg: int, ee: int|
                0 <= gg < target.take(g + 1).len() && 0 <= ee < target.take(g + 1)[gg].1.len()
                    implies (#[trigger] target.take(g + 1)[gg].1[ee].0).len() == 26
                && ids::id_chars_valid(target.take(g + 1)[gg].1[ee].0) by {
                if gg < g {
                    assert(target.take(g as int)[gg].1[ee] == target.take(g + 1)[gg].1[ee]);
                    assert(stored_ids_valid(target.take(g as int)));
                } else {
                    assert(target.take(g + 1)[gg].1 == eviews);
                }
            }
        }
        g = g + 1;
    }
    proof {
        assert(target.take(n as int) =~= target);
    }
    table
}

/// A pool extended by a batch of new replies, in order.
pub open spec fn spec_pool_extended(
    m: Map<u128, Seq<u8>>,
    batch: Seq<u128>,
    texts: Seq<Seq<u8>>,
) -> Map<u128, Seq<u8>>
    decreases texts.len(),
{
    if texts.len() == 0 {
        m
    } else {
        spec_pool_extended(m, batch.drop_last(), texts.drop_last()).insert(
            batch.last(),
            texts.last(),
        )
    }
}

/// Removes the entry for `id` from one reply pool, if present.
fn remove_entry(rs: &mut Vec<ReplyEntry>, id: u128)
    requires
        inner_unique(old(rs)@),
    ensures
        inner_unique(final(rs)@),
        replies_map(final(rs)@) == replies_map(old(rs)@).remove(id),
{
    let n = rs.len();
    let mut i: usize = 0;
    while i < n
        invariant
            rs == old(rs),
            inner_unique(rs@),
            n == rs@.len(),
            i <= n,
            forall|k: int| 0 <= k < i ==> rs@[k].id != id,
        decreases n - i,
    {
        if rs[i].id == id {
            rs.remove(i);
            proof {
                assert forall|x: u128| #[trigger]
                    replies_map(rs@).contains_key(x) == replies_map(old(rs)@).remove(
                        id,
                    ).contains_key(x) && (replies_map(rs@).contains_key(x) ==> replies_map(rs@)[x]
                    == replies_map(old(rs)@).remove(id)[x]) by {
                    lemma_replies_remove_point(old(rs)@, rs@, i as int, id, x);
                }
                assert(replies_map(rs@) =~= replies_map(old(rs)@).remove(id));
            }
            return ;
        }
        i = i + 1;
    }
    proof {
        assert forall|x: u128| #[trigger]
            replies_map(rs@).contains_key(x) == replies_map(old(rs)@).remove(id).contains_key(x)
            && (replies_map(rs@).contains_key(x) ==> replies_map(rs@)[x] == replies_map(
            old(rs)@,
        ).remove(id)[x]) by {
            if replies_map(rs@).contains_key(x) {
                let w = choose|w: int| 0 <= w < rs@.len() && rs@[w].id == x;
                assert(x != id);
            }
        }
        assert(replies_map(rs@) =~= replies_map(old(rs)@).remove(id));
    }
}

/// Pointwise effect of removing the entry at `i` (whose id occurs only
/// there).
proof fn lemma_replies_remove_point(
    s0: Seq<ReplyEntry>,
    s1: Seq<ReplyEntry>,
    i: int,
    id: u128,
    x: u128,
)
    requires
        inner_unique(s0),
        0 <= i < s0.len(),
        s0[i].id == id,
        s1 == s0.remove(i),
    ensures
        inner_unique(s1),
        replies_map(s1).contains_key(x) == replies_map(s0).remove(id).contains_key(x),
        replies_map(s1).contains_key(x) ==> replies_map(s1)[x] == replies_map(s0).remove(id)[x],
{
    assert(s1.len() == s0.len() - 1);
    assert(forall|k: int| 0 <= k < i ==> s1[k] == s0[k]);
    assert(forall|k: int| i <= k < s1.len() ==> s1[k] == s0[k + 1]);
    assert forall|p: int, q: int| 0 <= p < q < s1.len() implies s1[p].id != s1[q].id by {
        if p < i && q < i {
            assert(s0[p].id != s0[q].id);
        } else if p < i {
            assert(s0[p].id != s0[q + 1].id);
        } else {
            assert(s0[p + 1].id != s0[q + 1].id);
        }
    }
    if x == id {
        if replies_map(s1).contains_key(x) {
            let w = choose|w: int| 0 <= w < s1.len() && s1[w].id == x;
            if w < i {
                assert(s0[w].id == x && s0[i].id == x);
            } else {
                assert(s0[w + 1].id == x && s0[i].id == x);
            }
        }
    } else {
        if replies_map(s1).contains_key(x) {
            let w = choose|w: int| 0 <= w < s1.len() && s1[w].id == x;
            let v = if w < i {
                w
            } else {
                w + 1
            };
            assert(s0[v].id == x);
            let w0 = choose|w0: int| 0 <= w0 < s0.len() && s0[w0].id == x;
            assert(w0 == v);
            assert(replies_map(s1)[x] == s1[w].text@);
            assert(replies_map(s0)[x] == s0[v].text@);
        }
        if replies_map(s0).contains_key(x) {
            let w = choose|w: int| 0 <= w < s0.len() && s0[w].id == x;
            assert(w != i);
            let v = if w < i {
                w
            } else {
                w - 1
            };
            assert(s1[v].id == x);
        }
    }
}

/// After removing the group at `p`, the view loses exactly that keyword.
proof fn lemma_view_after_group_remove(t0: &ReplyTable, t1: &ReplyTable, p: int, k: Seq<u8>)
    requires
        t0.wf(),
        0 <= p < t0.groups@.len(),
        t0.groups@[p].keyword@ == k,
        t1.groups@ == t0.groups@.remove(p),
    ensures
        t1.wf(),
        t1@ == t0@.remove(k),
{
    assert(t1.groups@.len() == t0.groups@.len() - 1);
    assert(forall|q: int| 0 <= q < p ==> t1.groups@[q] == t0.groups@[q]);
    assert(forall|q: int| p <= q < t1.groups@.len() ==> t1.groups@[q] == t0.groups@[q + 1]);
    assert forall|q: int, r: int| 0 <= q < r < t1.groups@.len() implies lex_lt(
        t1.groups@[q].keyword@,
        t1.groups@[r].keyword@,
    ) by {
        if q < p && r < p {
            assert(lex_lt(t0.groups@[q].keyword@, t0.groups@[r].keyword@));
        } else if q < p {
            assert(lex_lt(t0.groups@[q].keyword@, t0.groups@[r + 1].keyword@));
        } else {
            assert(lex_lt(t0.groups@[q + 1].keyword@, t0.groups@[r + 1].keyword@));
        }
    }
    assert forall|g: int| 0 <= g < t1.groups@.len() implies inner_unique(
        #[trigger] t1.groups@[g].replies@,
    ) by {
        if g < p {
            assert(t1.groups@[g] == t0.groups@[g]);
        } else {
            assert(t1.groups@[g] == t0.groups@[g + 1]);
        }
    }
    assert forall|k2: Seq<u8>| #[trigger]
        t1@.contains_key(k2) == t0@.remove(k).contains_key(k2) && (t1@.contains_key(k2)
        ==> t1@[k2] == t0@.remove(k)[k2]) by {
        if k2 == k {
            if t1@.contains_key(k2) {
                let i = choose|i: int|
                    0 <= i < t1.groups@.len() && t1.groups@[i].keyword@ == k2;
                let v = if i < p {
                    i
                } else {
                    i + 1
                };
                assert(t0.groups@[v].keyword@ == k && t0.groups@[p].keyword@ == k);
                if v < p {
                    assert(lex_lt(t0.groups@[v].keyword@, t0.groups@[p].keyword@));
                    lemma_lex_irrefl(k);
                }
                if v > p {
                    assert(lex_lt(t0.groups@[p].keyword@, t0.groups@[v].keyword@));
                    lemma_lex_irrefl(k);
                }
            }
        } else {
            if t1@.contains_key(k2) {
                let i = choose|i: int|
                    0 <= i < t1.groups@.len() && t1.groups@[i].keyword@ == k2;
                t1.lemma_view_index(i);
                let v = if i < p {
                    i
                } else {
                    i + 1
                };
                assert(t0.groups@[v].keyword@ == k2);
                t0.lemma_view_index(v);
                assert(t1.groups@[i].replies@ == t0.groups@[v].replies@);
            }
            if t0@.contains_key(k2) {
                let i = choose|i: int|
                    0 <= i < t0.groups@.len() && t0.groups@[i].keyword@ == k2;
                assert(i != p);
                let v = if i < p {
                    i
                } else {
                    i - 1
                };
                assert(t1.groups@[v].keyword@ == k2);
            }
        }
    }
    assert(t1@ =~= t0@.remove(k));
}

/// Pointwise effect of overwriting the entry at `i` with id `id` (which
/// occurs only there).
proof fn lemma_replies_upsert_point(
    s0: Seq<ReplyEntry>,
    s1: Seq<ReplyEntry>,
    i: int,
    id: u128,
    reply: Seq<u8>,
    x: u128,
)
    requires
        inner_unique(s0),
        0 <= i < s0.len(),
        s0[i].id == id,
        s1.len() == s0.len(),
        forall|k: int| 0 <= k < s0.len() && k != i ==> s1[k] == s0[k],
        s1[i].id == id,
        s1[i].text@ == reply,
    ensures
        replies_map(s1).contains_key(x) == replies_map(s0).insert(id, reply).contains_key(x),
        replies_map(s1).contains_key(x) ==> replies_map(s1)[x] == replies_map(s0).insert(
            id,
            reply,
        )[x],
{
    assert(forall|p: int, q: int| 0 <= p < q < s1.len() ==> s1[p].id != s1[q].id);
    if x == id {
        assert(s1[i].id == x);
        assert(replies_map(s1).contains_key(x));
        let w = choose|w: int| 0 <= w < s1.len() && s1[w].id == x;
        assert(w == i);
    } else {
        if replies_map(s1).contains_key(x) {
            let w = choose|w: int| 0 <= w < s1.len() && s1[w].id == x;
            assert(w != i);
            assert(s0[w].id == x);
            let w0 = choose|w0: int| 0 <= w0 < s0.len() && s0[w0].id == x;
            assert(w0 == w);
            assert(replies_map(s1)[x] == s1[w].text@);
        }
        if replies_map(s0).contains_key(x) {
            let w = choose|w: int| 0 <= w < s0.len() && s0[w].id == x;
            assert(w != i);
            assert(s1[w].id == x);
        }
    }
}

/// Pointwise effect of appending an entry with a fresh id.
proof fn lemma_replies_push_point(
    s0: Seq<ReplyEntry>,
    s1: Seq<ReplyEntry>,
    id: u128,
    reply: Seq<u8>,
    x: u128,
)
    requires
        inner_unique(s0),
        forall|k: int| 0 <= k < s0.len() ==> s0[k].id != id,
        s1.len() == s0.len() + 1,
        forall|k: int| 0 <= k < s0.len() ==> s1[k] == s0[k],
        s1.last().id == id,
        s1.last().text@ == reply,
    ensures
        inner_unique(s1),
        replies_map(s1).contains_key(x) == replies_map(s0).insert(id, reply).contains_key(x),
        replies_map(s1).contains_key(x) ==> replies_map(s1)[x] == replies_map(s0).insert(
            id,
            reply,
        )[x],
{
    assert forall|p: int, q: int| 0 <= p < q < s1.len() implies s1[p].id != s1[q].id by {
        if q == s1.len() - 1 {
            assert(s1[p] == s0[p]);
        }
    }
    if x == id {
        assert(s1[s1.len() - 1].id == x);
        let w = choose|w: int| 0 <= w < s1.len() && s1[w].id == x;
        assert(w == s1.len() - 1);
    } else {
        if replies_map(s1).contains_key(x) {
            let w = choose|w: int| 0 <= w < s1.len() && s1[w].id == x;
            assert(w != s1.len() - 1);
            assert(s0[w].id == x);
            let w0 = choose|w0: int| 0 <= w0 < s0.len() && s0[w0].id == x;
            assert(w0 == w);
        }
        if replies_map(s0).contains_key(x) {
            let w = choose|w: int| 0 <= w < s0.len() && s0[w].id == x;
            assert(s1[w].id == x);
        }
    }
}

/// A one-entry pool is the singleton map.
proof fn lemma_replies_singleton(rs: Seq<ReplyEntry>, id: u128, reply: Seq<u8>)
    requires
        rs.len() == 1,
        rs[0].id == id,
        rs[0].text@ == reply,
    ensures
        inner_unique(rs),
        replies_map(rs) == Map::<u128, Seq<u8>>::empty().insert(id, reply),
{
    assert forall|x: u128| #[trigger]
        replies_map(rs).contains_key(x) == Map::<u128, Seq<u8>>::empty().insert(
            id,
            reply,
        ).contains_key(x) && (replies_map(rs).contains_key(x) ==> replies_map(rs)[x] == Map::<
        u128,
        Seq<u8>,
    >::empty().insert(id, reply)[x]) by {
        if x == id {
            assert(rs[0].id == x);
            assert(replies_map(rs).contains_key(x));
            let w = choose|w: int| 0 <= w < rs.len() && rs[w].id == x;
            assert(w == 0);
        } else {
            if replies_map(rs).contains_key(x) {
                let w = choose|w: int| 0 <= w < rs.len() && rs[w].id == x;
                assert(w == 0);
            }
        }
    }
    assert(replies_map(rs) =~= Map::<u128, Seq<u8>>::empty().insert(id, reply));
}

/// `lex_lt` is irreflexive.
proof fn lemma_lex_irrefl(a: Seq<u8>)
    ensures
        !lex_lt(a, a),
    decreases a.len(),
{
    if a.len() > 0 {
        lemma_lex_irrefl(a.skip(1));
    }
}

/// `lex_lt` is a total order: distinct strings compare one way or the other.
proof fn lemma_lex_total(a: Seq<u8>, b: Seq<u8>)
    requires
        a != b,
    ensures
        lex_lt(a, b) || lex_lt(b, a),
    decreases a.len(),
{
    if a.len() == 0 {
        if b.len() == 0 {
            assert(a =~= b);
        }
        assert(b.len() > 0);
    } else if b.len() == 0 {
    } else if a[0] < b[0] {
    } else if a[0] > b[0] {
    } else {
        if a.skip(1) == b.skip(1) {
            assert(a.skip(1).len() == a.len() - 1);
            assert(b.skip(1).len() == b.len() - 1);
            assert(a.len() == b.len());
            assert forall|i: int| 0 <= i < a.len() implies a[i] == b[i] by {
                if i > 0 {
                    assert(a.skip(1)[i - 1] == b.skip(1)[i - 1]);
                }
            }
            assert(a =~= b);
        } else {
            lemma_lex_total(a.skip(1), b.skip(1));
        }
    }
}

/// `lex_lt` is transitive.
proof fn lemma_lex_trans(a: Seq<u8>, b: Seq<u8>, c: Seq<u8>)
    requires
        lex_lt(a, b),
        lex_lt(b, c),
    ensures
        lex_lt(a, c),
    decreases a.len(),
{
    if b.len() == 0 {
    } else if a.len() == 0 {
    } else if c.len() == 0 {
    } else {
        if a[0] == b[0] && b[0] == c[0] {
            lemma_lex_trans(a.skip(1), b.skip(1), c.skip(1));
        }
    }
}

/// After replacing the pool of group `p` (same keyword, `upsert`ed pool),
/// the view is the old view with that keyword's pool updated.
proof fn lemma_view_after_pool_change(t0: &ReplyTable, t1: &ReplyTable, p: int, k: Seq<u8>)
    requires
        t0.wf(),
        0 <= p < t0.groups@.len(),
        t1.groups@.len() == t0.groups@.len(),
        forall|q: int| 0 <= q < t0.groups@.len() && q != p ==> t1.groups@[q] == t0.groups@[q],
        t1.groups@[p].keyword@ == t0.groups@[p].keyword@,
        t0.groups@[p].keyword@ == k,
        inner_unique(t1.groups@[p].replies@),
    ensures
        t1.wf(),
        t1@ == t0@.insert(k, replies_map(t1.groups@[p].replies@)),
{
    assert(forall|q: int|
        0 <= q < t1.groups@.len() ==> #[trigger] t1.groups@[q].keyword@ == t0.groups@[q].keyword@);
    assert forall|q: int, r: int| 0 <= q < r < t1.groups@.len() implies lex_lt(
        t1.groups@[q].keyword@,
        t1.groups@[r].keyword@,
    ) by {
        assert(lex_lt(t0.groups@[q].keyword@, t0.groups@[r].keyword@));
    }
    assert forall|g: int| 0 <= g < t1.groups@.len() implies inner_unique(
        #[trigger] t1.groups@[g].replies@,
    ) by {
        if g != p {
            assert(t1.groups@[g] == t0.groups@[g]);
        }
    }
    let m0 = t0@;
    let m1 = t1@;
    assert forall|k2: Seq<u8>| #[trigger]
        m1.contains_key(k2) == m0.insert(k, replies_map(t1.groups@[p].replies@)).contains_key(k2)
        && (m1.contains_key(k2) ==> m1[k2] == m0.insert(
        k,
        replies_map(t1.groups@[p].replies@),
    )[k2]) by {
        if k2 == k {
            t1.lemma_view_index(p);
        } else {
            if m1.contains_key(k2) {
                let i = choose|i: int|
                    0 <= i < t1.groups@.len() && t1.groups@[i].keyword@ == k2;
                assert(t0.groups@[i].keyword@ == k2);
                t1.lemma_view_index(i);
                t0.lemma_view_index(i);
                assert(i != p);
                assert(t1.groups@[i].replies@ == t0.groups@[i].replies@);
            }
            if m0.contains_key(k2) {
                let i = choose|i: int|
                    0 <= i < t0.groups@.len() && t0.groups@[i].keyword@ == k2;
                assert(t1.groups@[i].keyword@ == k2);
            }
        }
    }
    assert(m1 =~= m0.insert(k, replies_map(t1.groups@[p].replies@)));
}

/// After inserting a brand-new group at position `p`, the view is the old
/// view with the new keyword mapped to the new pool.
proof fn lemma_view_after_group_insert(t0: &ReplyTable, t1: &ReplyTable, p: int, k: Seq<u8>)
    requires
        t0.wf(),
        0 <= p <= t0.groups@.len(),
        t1.groups@ == t0.groups@.insert(p, t1.groups@[p]),
        t1.groups@[p].keyword@ == k,
        inner_unique(t1.groups@[p].replies@),
        forall|q: int| 0 <= q < p ==> lex_lt(#[trigger] t0.groups@[q].keyword@, k),
        forall|q: int| p <= q < t0.groups@.len() ==> lex_lt(k, #[trigger] t0.groups@[q].keyword@),
    ensures
        t1.wf(),
        t1@ == t0@.insert(k, replies_map(t1.groups@[p].replies@)),
{
    assert(t1.groups@.len() == t0.groups@.len() + 1);
    assert(forall|q: int| 0 <= q < p ==> t1.groups@[q] == t0.groups@[q]);
    assert(forall|q: int|
        p < q < t1.groups@.len() ==> t1.groups@[q] == t0.groups@[q - 1]);
    assert forall|q: int, r: int| 0 <= q < r < t1.groups@.len() implies lex_lt(
        t1.groups@[q].keyword@,
        t1.groups@[r].keyword@,
    ) by {
        if q == p {
            assert(lex_lt(k, t0.groups@[r - 1].keyword@));
        } else if r == p {
            assert(lex_lt(t0.groups@[q].keyword@, k));
        } else if q < p && r > p {
            assert(lex_lt(t0.groups@[q].keyword@, t0.groups@[r - 1].keyword@));
        } else if r < p {
            assert(lex_lt(t0.groups@[q].keyword@, t0.groups@[r].keyword@));
        } else {
            assert(lex_lt(t0.groups@[q - 1].keyword@, t0.groups@[r - 1].keyword@));
        }
    }
    assert forall|g: int| 0 <= g < t1.groups@.len() implies inner_unique(
        #[trigger] t1.groups@[g].replies@,
    ) by {
        if g < p {
            assert(t1.groups@[g] == t0.groups@[g]);
        } else if g > p {
            assert(t1.groups@[g] == t0.groups@[g - 1]);
        }
    }
    let m0 = t0@;
    let m1 = t1@;
    assert forall|k2: Seq<u8>| #[trigger]
        m1.contains_key(k2) == m0.insert(k, replies_map(t1.groups@[p].replies@)).contains_key(k2)
        && (m1.contains_key(k2) ==> m1[k2] == m0.insert(
        k,
        replies_map(t1.groups@[p].replies@),
    )[k2]) by {
        if k2 == k {
            t1.lemma_view_index(p);
        } else {
            if m1.contains_key(k2) {
                let i = choose|i: int|
                    0 <= i < t1.groups@.len() && t1.groups@[i].keyword@ == k2;
                assert(i != p);
                t1.lemma_view_index(i);
                if i < p {
                    assert(t0.groups@[i].keyword@ == k2);
                    t0.lemma_view_index(i);
                } else {
                    assert(t0.groups@[i - 1].keyword@ == k2);
                    t0.lemma_view_index(i - 1);
                }
            }
            if m0.contains_key(k2) {
                let i = choose|i: int|
                    0 <= i < t0.groups@.len() && t0.groups@[i].keyword@ == k2;
                if i < p {
                    assert(t1.groups@[i].keyword@ == k2);
                } else {
                    assert(t1.groups@[i + 1].keyword@ == k2);
                }
            }
        }
    }
    assert(m1 =~= m0.insert(k, replies_map(t1.groups@[p].replies@)));
}

} // verus!
