use vstd::prelude::*;
use crate::stream::VerificationItem;

verus! {

pub open spec fn vkey(v: VerificationItem) -> (i64, i64, i64) {
    (v.user_id, v.paper_id, v.interest_id)
}

pub open spec fn has_key(rows: Seq<VerificationItem>, k: (i64, i64, i64)) -> bool {
    exists|i: int| 0 <= i < rows.len() && vkey(#[trigger] rows[i]) == k
}

pub open spec fn unique_verifications(rows: Seq<VerificationItem>) -> bool {
    forall|i: int, j: int|
        0 <= i < rows.len() && 0 <= j < rows.len() && i != j ==> vkey(#[trigger] rows[i]) != vkey(#[trigger] rows[j])
}

/// `rows` after inserting the first `n` of `items`, each skipped when a
/// row with its (user, paper, interest) already exists.
pub open spec fn insert_all(rows: Seq<VerificationItem>, items: Seq<VerificationItem>, n: nat) -> Seq<VerificationItem>
    decreases n,
{
    if n == 0 {
        rows
    } else {
        let r = insert_all(rows, items, (n - 1) as nat);
        if has_key(r, vkey(items[n - 1])) { r } else { r.push(items[n - 1]) }
    }
}

/// Verification uniqueness: inserting with conflicts ignored keeps at most
/// one row per (user, paper, interest), keeps every earlier row, and
/// leaves a row for every item inserted.
pub proof fn lemma_insert_unique(rows: Seq<VerificationItem>, items: Seq<VerificationItem>, n: nat)
    requires
        unique_verifications(rows),
        n <= items.len(),
    ensures
        unique_verifications(insert_all(rows, items, n)),
        insert_all(rows, items, n).len() >= rows.len(),
        forall|i: int| 0 <= i < rows.len() ==> #[trigger] insert_all(rows, items, n)[i] == rows[i],
        forall|j: int| 0 <= j < n ==> has_key(insert_all(rows, items, n), vkey(#[trigger] items[j])),
    decreases n,
{
    if n > 0 {
        lemma_insert_unique(rows, items, (n - 1) as nat);
        let r = insert_all(rows, items, (n - 1) as nat);
        let x = items[n - 1];
        if !has_key(r, vkey(x)) {
            let r2 = r.push(x);
            assert forall|a: int, b: int|
                0 <= a < r2.len() && 0 <= b < r2.len() && a != b implies vkey(#[trigger] r2[a]) != vkey(#[trigger] r2[b]) by {
                if a < r.len() {
                    assert(r2[a] == r[a]);
                }
                if b < r.len() {
                    assert(r2[b] == r[b]);
                }
            }
            assert forall|j: int| 0 <= j < n implies has_key(r2, vkey(#[trigger] items[j])) by {
                if j < n - 1 {
                    let i = choose|i: int| 0 <= i < r.len() && vkey(#[trigger] r[i]) == vkey(items[j]);
                    assert(r2[i] == r[i]);
                } else {
                    assert(r2[r.len() as int] == x);
                }
            }
        }
    }
}

/// The verification rows of the durable store: at most one per (user,
/// paper, interest).
pub struct VerificationTable {
    rows: Vec<VerificationItem>,
}

impl View for VerificationTable {
    type V = Seq<VerificationItem>;

    closed spec fn view(&self) -> Seq<VerificationItem> {
        self.rows@
    }
}

impl VerificationTable {
    pub open spec fn wf(&self) -> bool {
        unique_verifications(self@)
    }

    pub fn new() -> (r: VerificationTable)
        ensures
            r.wf(),
            r@.len() == 0,
    {
        VerificationTable { rows: Vec::new() }
    }

    pub fn rows(&self) -> (r: &Vec<VerificationItem>)
        ensures
            r@ == self@,
    {
        &self.rows
    }

    /// Whether a row with this (user, paper, interest) exists.
    pub fn exists_by_user_paper_interest(&self, user_id: i64, paper_id: i64, interest_id: i64) -> (r: bool)
        ensures
            r == has_key(self@, (user_id, paper_id, interest_id)),
    {
        let mut i: usize = 0;
        while i < self.rows.len()
            invariant
                0 <= i <= self.rows@.len(),
                forall|k: int| 0 <= k < i ==> vkey(#[trigger] self.rows@[k]) != (user_id, paper_id, interest_id),
            decreases self.rows@.len() - i,
        {
            let v = self.rows[i];
            if v.user_id == user_id && v.paper_id == paper_id && v.interest_id == interest_id {
                return true;
            }
            i = i + 1;
        }
        false
    }

    /// Inserts `items` in order, skipping each one whose (user, paper,
    /// interest) already has a row, as when another worker got there
    /// first. Returns how many rows were added.
    pub fn insert_ignoring_conflicts(&mut self, items: &Vec<VerificationItem>) -> (added: usize)
        requires
            old(self).wf(),
        ensures
            final(self).wf(),
            final(self)@ == insert_all(old(self)@, items@, items@.len() as nat),
            added == final(self)@.len() - old(self)@.len(),
    {
        let ghost start = self@;
        let start_len = self.rows.len();
        let mut j: usize = 0;
        while j < items.len()
            invariant
                0 <= j <= items@.len(),
                unique_verifications(start),
                self@ == insert_all(start, items@, j as nat),
                start_len == start.len(),
            decreases items@.len() - j,
        {
            proof {
                lemma_insert_unique(start, items@, j as nat);
            }
            let v = items[j];
            if !self.exists_by_user_paper_interest(v.user_id, v.paper_id, v.interest_id) {
                self.rows.push(v);
            }
            j = j + 1;
        }
        proof {
            lemma_insert_unique(start, items@, items@.len() as nat);
        }
        self.rows.len() - start_len
    }
}

/// Paper `p` still lacks a verification of user `u` against one of the
/// active interests `interests`.
pub open spec fn unverified(rows: Seq<VerificationItem>, u: i64, p: i64, interests: Seq<i64>) -> bool {
    exists|k: int| 0 <= k < interests.len() && !has_key(rows, (u, p, #[trigger] interests[k]))
}

/// The unverified papers among the first `n` candidates, in order.
pub open spec fn unverified_among(rows: Seq<VerificationItem>, u: i64, candidates: Seq<i64>, interests: Seq<i64>, n: nat) -> Seq<i64>
    decreases n,
{
    if n == 0 {
        Seq::empty()
    } else {
        let prev = unverified_among(rows, u, candidates, interests, (n - 1) as nat);
        if unverified(rows, u, candidates[n - 1], interests) { prev.push(candidates[n - 1]) } else { prev }
    }
}

impl VerificationTable {
    /// The candidate papers (in order) that user `u` still has to verify
    /// against its active interests `interests`, at most `limit` of them.
    pub fn unverified_paper_ids(&self, u: i64, candidates: &Vec<i64>, interests: &Vec<i64>, limit: usize) -> (r: Vec<i64>)
        ensures
            r@ == ({
                let all = unverified_among(self@, u, candidates@, interests@, candidates@.len() as nat);
                if all.len() <= limit { all } else { all.take(limit as int) }
            }),
    {
        let mut out: Vec<i64> = Vec::new();
        let mut i: usize = 0;
        while i < candidates.len()
            invariant
                0 <= i <= candidates@.len(),
                out@ == unverified_among(self@, u, candidates@, interests@, i as nat),
            decreases candidates@.len() - i,
        {
            let p = candidates[i];
            let mut missing = false;
            let mut k: usize = 0;
            while k < interests.len()
                invariant
                    0 <= k <= interests@.len(),
                    missing == exists|q: int| 0 <= q < k && !has_key(self@, (u, p, #[trigger] interests@[q])),
                decreases interests@.len() - k,
            {
                if !self.exists_by_user_paper_interest(u, p, interests[k]) {
                    missing = true;
                }
                k = k + 1;
            }
            if missing {
                out.push(p);
            }
            i = i + 1;
        }
        if out.len() > limit {
            out.truncate(limit);
        }
        out
    }
}

} // verus!
