use vstd::prelude::*;

verus! {

/// What the set-diff does with one stored row.
#[derive(Debug, Clone, Copy, PartialEq, Eq, Structural)]
pub enum DiffClass {
    Keep,
    Restore,
    Remove,
    Untouched,
}

/// A stored interest row of a user; `deleted` marks a soft-deleted one.
#[derive(Debug, Clone)]
pub struct InterestRow {
    pub id: i64,
    pub interest: String,
    pub deleted: bool,
}

/// The changes that bring a user's interest rows to a wanted list.
#[derive(Debug, Clone)]
pub struct InterestDiff {
    /// Active rows that stay.
    pub keep: Vec<i64>,
    /// Soft-deleted rows to bring back (their ids are kept).
    pub restore: Vec<i64>,
    /// Wanted interests with no row at all, to create.
    pub add: Vec<String>,
    /// Active rows no longer wanted, to soft-delete.
    pub remove: Vec<i64>,
}

pub open spec fn interest_wanted(want: Seq<String>, k: Seq<char>) -> bool {
    exists|j: int| 0 <= j < want.len() && #[trigger] want[j]@ == k
}

pub open spec fn interest_has_active(rows: Seq<InterestRow>, k: Seq<char>) -> bool {
    exists|i: int| 0 <= i < rows.len() && !rows[i].deleted && #[trigger] rows[i].interest@ == k
}

pub open spec fn interest_has_row(rows: Seq<InterestRow>, k: Seq<char>) -> bool {
    exists|i: int| 0 <= i < rows.len() && #[trigger] rows[i].interest@ == k
}

/// Row `i` is the first soft-deleted row of its interest.
pub open spec fn interest_first_deleted(rows: Seq<InterestRow>, i: int) -> bool {
    rows[i].deleted && forall|k: int| 0 <= k < i ==> !(#[trigger] rows[k].deleted && rows[k].interest@ == rows[i].interest@)
}

pub open spec fn interest_class(rows: Seq<InterestRow>, want: Seq<String>, i: int) -> DiffClass {
    let k = rows[i].interest@;
    if !rows[i].deleted {
        if interest_wanted(want, k) { DiffClass::Keep } else { DiffClass::Remove }
    } else if interest_wanted(want, k) && !interest_has_active(rows, k) && interest_first_deleted(rows, i) {
        DiffClass::Restore
    } else {
        DiffClass::Untouched
    }
}

/// Ids of the first `n` rows whose class is `c`, in row order.
pub open spec fn interest_ids_of(rows: Seq<InterestRow>, want: Seq<String>, c: DiffClass, n: nat) -> Seq<i64>
    decreases n,
{
    if n == 0 {
        Seq::empty()
    } else {
        let p = interest_ids_of(rows, want, c, (n - 1) as nat);
        if interest_class(rows, want, n - 1) == c { p.push(rows[n - 1].id) } else { p }
    }
}

/// The wanted interests among the first `n` that have no row, each once.
pub open spec fn interest_adds(rows: Seq<InterestRow>, want: Seq<String>, n: nat) -> Seq<Seq<char>>
    decreases n,
{
    if n == 0 {
        Seq::empty()
    } else {
        let p = interest_adds(rows, want, (n - 1) as nat);
        let k = want[n - 1]@;
        if !interest_has_row(rows, k) && !interest_wanted(want.take(n - 1), k) { p.push(k) } else { p }
    }
}

fn interest_wanted_exec(want: &Vec<String>, k: &String, n: usize) -> (r: bool)
    requires
        n <= want@.len(),
    ensures
        r == interest_wanted(want@.take(n as int), k@),
{
    let mut j: usize = 0;
    while j < n
        invariant
            0 <= j <= n <= want@.len(),
            forall|q: int| 0 <= q < j ==> #[trigger] want@[q]@ != k@,
        decreases n - j,
    {
        if want[j] == *k {
            proof {
                assert(want@.take(n as int)[j as int] == want@[j as int]);
            }
            return true;
        }
        j = j + 1;
    }
    proof {
        assert forall|q: int| 0 <= q < want@.take(n as int).len() implies #[trigger] want@.take(n as int)[q]@ != k@ by {
            assert(want@.take(n as int)[q] == want@[q]);
        }
    }
    false
}

fn interest_class_exec(rows: &Vec<InterestRow>, want: &Vec<String>, i: usize) -> (r: DiffClass)
    requires
        i < rows@.len(),
    ensures
        r == interest_class(rows@, want@, i as int),
{
    let k = &rows[i].interest;
    proof {
        assert(want@.take(want@.len() as int) =~= want@);
    }
    let wanted = interest_wanted_exec(want, k, want.len());
    if !rows[i].deleted {
        return if wanted { DiffClass::Keep } else { DiffClass::Remove };
    }
    if !wanted {
        return DiffClass::Untouched;
    }
    let mut q: usize = 0;
    while q < rows.len()
        invariant
            0 <= q <= rows@.len(),
            i < rows@.len(),
            k@ == rows@[i as int].interest@,
            rows@[i as int].deleted,
            forall|z: int| 0 <= z < q ==> !(!rows@[z].deleted && #[trigger] rows@[z].interest@ == k@),
            forall|z: int| 0 <= z < q && z < i ==> !(#[trigger] rows@[z].deleted && rows@[z].interest@ == k@),
        decreases rows@.len() - q,
    {
        if rows[q].interest == *k {
            if !rows[q].deleted {
                proof {
                    assert(!rows@[q as int].deleted && rows@[q as int].interest@ == k@);
                    assert(interest_has_active(rows@, k@));
                }
                return DiffClass::Untouched;
            }
            if q < i {
                proof {
                    assert(rows@[q as int].deleted && rows@[q as int].interest@ == rows@[i as int].interest@);
                    assert(!interest_first_deleted(rows@, i as int));
                }
                return DiffClass::Untouched;
            }
        }
        q = q + 1;
    }
    DiffClass::Restore
}

/// Plans the changes that bring `rows` to `want`: active rows that are
/// wanted stay, active rows that are not are soft-deleted, a wanted
/// interest whose only rows are soft-deleted gets its first such row back
/// (same id), and a wanted interest with no row at all is created, once.
pub fn plan_interest_diff(rows: &Vec<InterestRow>, want: &Vec<String>) -> (r: InterestDiff)
    ensures
        r.keep@ == interest_ids_of(rows@, want@, DiffClass::Keep, rows@.len() as nat),
        r.restore@ == interest_ids_of(rows@, want@, DiffClass::Restore, rows@.len() as nat),
        r.remove@ == interest_ids_of(rows@, want@, DiffClass::Remove, rows@.len() as nat),
        r.add@.map_values(|x: String| x@) == interest_adds(rows@, want@, want@.len() as nat),
{
    let mut keep: Vec<i64> = Vec::new();
    let mut restore: Vec<i64> = Vec::new();
    let mut remove: Vec<i64> = Vec::new();
    let mut i: usize = 0;
    while i < rows.len()
        invariant
            0 <= i <= rows@.len(),
            keep@ == interest_ids_of(rows@, want@, DiffClass::Keep, i as nat),
            restore@ == interest_ids_of(rows@, want@, DiffClass::Restore, i as nat),
            remove@ == interest_ids_of(rows@, want@, DiffClass::Remove, i as nat),
        decreases rows@.len() - i,
    {
        let c = interest_class_exec(rows, want, i);
        match c {
            DiffClass::Keep => keep.push(rows[i].id),
            DiffClass::Restore => restore.push(rows[i].id),
            DiffClass::Remove => remove.push(rows[i].id),
            DiffClass::Untouched => {},
        }
        i = i + 1;
    }
    let mut add: Vec<String> = Vec::new();
    let mut j: usize = 0;
    while j < want.len()
        invariant
            0 <= j <= want@.len(),
            add@.map_values(|x: String| x@) == interest_adds(rows@, want@, j as nat),
        decreases want@.len() - j,
    {
        let k = &want[j];
        let earlier = interest_wanted_exec(want, k, j);
        let mut has_row = false;
        let mut q: usize = 0;
        while q < rows.len()
            invariant
                0 <= q <= rows@.len(),
                j < want@.len(),
                k == &want@[j as int],
                has_row == exists|z: int| 0 <= z < q && #[trigger] rows@[z].interest@ == k@,
            decreases rows@.len() - q,
        {
            if rows[q].interest == *k {
                has_row = true;
            }
            q = q + 1;
        }
        if !has_row && !earlier {
            let ghost prev = add@;
            add.push(k.clone());
            proof {
                assert(add@.map_values(|x: String| x@) =~= prev.map_values(|x: String| x@).push(want@[j as int]@));
            }
        }
        j = j + 1;
    }
    InterestDiff { keep, restore, add, remove }
}

pub proof fn lemma_interest_ids_of(rows: Seq<InterestRow>, want: Seq<String>, c: DiffClass, n: nat, i: int)
    requires
        0 <= i < n <= rows.len(),
        interest_class(rows, want, i) == c,
    ensures
        interest_ids_of(rows, want, c, n).contains(rows[i].id),
    decreases n,
{
    let p = interest_ids_of(rows, want, c, (n - 1) as nat);
    if i < n - 1 {
        lemma_interest_ids_of(rows, want, c, (n - 1) as nat, i);
        let z = choose|z: int| 0 <= z < p.len() && p[z] == rows[i].id;
        assert(interest_ids_of(rows, want, c, n)[z] == rows[i].id);
    } else {
        assert(interest_ids_of(rows, want, c, n)[p.len() as int] == rows[i].id);
    }
}

pub proof fn lemma_interest_adds_fresh(rows: Seq<InterestRow>, want: Seq<String>, n: nat, k: Seq<char>)
    requires
        n <= want.len(),
        interest_has_row(rows, k),
    ensures
        !interest_adds(rows, want, n).contains(k),
    decreases n,
{
    if n > 0 {
        lemma_interest_adds_fresh(rows, want, (n - 1) as nat, k);
    }
}

/// A stored subscription row of a user; `deleted` marks a soft-deleted one.
#[derive(Debug, Clone)]
pub struct SubscriptionRow {
    pub id: i64,
    pub source_id: i32,
    pub deleted: bool,
}

/// The changes that bring a user's subscription rows to a wanted list.
#[derive(Debug, Clone)]
pub struct SubscriptionDiff {
    /// Active rows that stay.
    pub keep: Vec<i64>,
    /// Soft-deleted rows to bring back (their ids are kept).
    pub restore: Vec<i64>,
    /// Wanted subscriptions with no row at all, to create.
    pub add: Vec<i32>,
    /// Active rows no longer wanted, to soft-delete.
    pub remove: Vec<i64>,
}

pub open spec fn subscription_wanted(want: Seq<i32>, k: i32) -> bool {
    exists|j: int| 0 <= j < want.len() && #[trigger] want[j] == k
}

pub open spec fn subscription_has_active(rows: Seq<SubscriptionRow>, k: i32) -> bool {
    exists|i: int| 0 <= i < rows.len() && !rows[i].deleted && #[trigger] rows[i].source_id == k
}

pub open spec fn subscription_has_row(rows: Seq<SubscriptionRow>, k: i32) -> bool {
    exists|i: int| 0 <= i < rows.len() && #[trigger] rows[i].source_id == k
}

/// Row `i` is the first soft-deleted row of its subscription.
pub open spec fn subscription_first_deleted(rows: Seq<SubscriptionRow>, i: int) -> bool {
    rows[i].deleted && forall|k: int| 0 <= k < i ==> !(#[trigger] rows[k].deleted && rows[k].source_id == rows[i].source_id)
}

pub open spec fn subscription_class(rows: Seq<SubscriptionRow>, want: Seq<i32>, i: int) -> DiffClass {
    let k = rows[i].source_id;
    if !rows[i].deleted {
        if subscription_wanted(want, k) { DiffClass::Keep } else { DiffClass::Remove }
    } else if subscription_wanted(want, k) && !subscription_has_active(rows, k) && subscription_first_deleted(rows, i) {
        DiffClass::Restore
    } else {
        DiffClass::Untouched
    }
}

/// Ids of the first `n` rows whose class is `c`, in row order.
pub open spec fn subscription_ids_of(rows: Seq<SubscriptionRow>, want: Seq<i32>, c: DiffClass, n: nat) -> Seq<i64>
    decreases n,
{
    if n == 0 {
        Seq::empty()
    } else {
        let p = subscription_ids_of(rows, want, c, (n - 1) as nat);
        if subscription_class(rows, want, n - 1) == c { p.push(rows[n - 1].id) } else { p }
    }
}

/// The wanted subscriptions among the first `n` that have no row, each once.
pub open spec fn subscription_adds(rows: Seq<SubscriptionRow>, want: Seq<i32>, n: nat) -> Seq<i32>
    decreases n,
{
    if n == 0 {
        Seq::empty()
    } else {
        let p = subscription_adds(rows, want, (n - 1) as nat);
        let k = want[n - 1];
        if !subscription_has_row(rows, k) && !subscription_wanted(want.take(n - 1), k) { p.push(k) } else { p }
    }
}

fn subscription_wanted_exec(want: &Vec<i32>, k: &i32, n: usize) -> (r: bool)
    requires
        n <= want@.len(),
    ensures
        r == subscription_wanted(want@.take(n as int), *k),
{
    let mut j: usize = 0;
    while j < n
        invariant
            0 <= j <= n <= want@.len(),
            forall|q: int| 0 <= q < j ==> #[trigger] want@[q] != *k,
        decreases n - j,
    {
        if want[j] == *k {
            proof {
                assert(want@.take(n as int)[j as int] == want@[j as int]);
            }
            return true;
        }
        j = j + 1;
    }
    proof {
        assert forall|q: int| 0 <= q < want@.take(n as int).len() implies #[trigger] want@.take(n as int)[q] != *k by {
            assert(want@.take(n as int)[q] == want@[q]);
        }
    }
    false
}

fn subscription_class_exec(rows: &Vec<SubscriptionRow>, want: &Vec<i32>, i: usize) -> (r: DiffClass)
    requires
        i < rows@.len(),
    ensures
        r == subscription_class(rows@, want@, i as int),
{
    let k = &rows[i].source_id;
    proof {
        assert(want@.take(want@.len() as int) =~= want@);
    }
    let wanted = subscription_wanted_exec(want, k, want.len());
    if !rows[i].deleted {
        return if wanted { DiffClass::Keep } else { DiffClass::Remove };
    }
    if !wanted {
        return DiffClass::Untouched;
    }
    let mut q: usize = 0;
    while q < rows.len()
        invariant
            0 <= q <= rows@.len(),
            i < rows@.len(),
            *k == rows@[i as int].source_id,
            rows@[i as int].deleted,
            forall|z: int| 0 <= z < q ==> !(!rows@[z].deleted && #[trigger] rows@[z].source_id == *k),
            forall|z: int| 0 <= z < q && z < i ==> !(#[trigger] rows@[z].deleted && rows@[z].source_id == *k),
        decreases rows@.len() - q,
    {
        if rows[q].source_id == *k {
            if !rows[q].deleted {
                proof {
                    assert(!rows@[q as int].deleted && rows@[q as int].source_id == *k);
                    assert(subscription_has_active(rows@, *k));
                }
                return DiffClass::Untouched;
            }
            if q < i {
                proof {
                    assert(rows@[q as int].deleted && rows@[q as int].source_id == rows@[i as int].source_id);
                    assert(!subscription_first_deleted(rows@, i as int));
                }
                return DiffClass::Untouched;
            }
        }
        q = q + 1;
    }
    DiffClass::Restore
}

/// Plans the changes that bring `rows` to `want`: active rows that are
/// wanted stay, active rows that are not are soft-deleted, a wanted
/// subscription whose only rows are soft-deleted gets its first such row back
/// (same id), and a wanted subscription with no row at all is created, once.
pub fn plan_subscription_diff(rows: &Vec<SubscriptionRow>, want: &Vec<i32>) -> (r: SubscriptionDiff)
    ensures
        r.keep@ == subscription_ids_of(rows@, want@, DiffClass::Keep, rows@.len() as nat),
        r.restore@ == subscription_ids_of(rows@, want@, DiffClass::Restore, rows@.len() as nat),
        r.remove@ == subscription_ids_of(rows@, want@, DiffClass::Remove, rows@.len() as nat),
        r.add@.map_values(|x: i32| x) == subscription_adds(rows@, want@, want@.len() as nat),
{
    let mut keep: Vec<i64> = Vec::new();
    let mut restore: Vec<i64> = Vec::new();
    let mut remove: Vec<i64> = Vec::new();
    let mut i: usize = 0;
    while i < rows.len()
        invariant
            0 <= i <= rows@.len(),
            keep@ == subscription_ids_of(rows@, want@, DiffClass::Keep, i as nat),
            restore@ == subscription_ids_of(rows@, want@, DiffClass::Restore, i as nat),
            remove@ == subscription_ids_of(rows@, want@, DiffClass::Remove, i as nat),
        decreases rows@.len() - i,
    {
        let c = subscription_class_exec(rows, want, i);
        match c {
            DiffClass::Keep => keep.push(rows[i].id),
            DiffClass::Restore => restore.push(rows[i].id),
            DiffClass::Remove => remove.push(rows[i].id),
            DiffClass::Untouched => {},
        }
        i = i + 1;
    }
    let mut add: Vec<i32> = Vec::new();
    let mut j: usize = 0;
    while j < want.len()
        invariant
            0 <= j <= want@.len(),
            add@.map_values(|x: i32| x) == subscription_adds(rows@, want@, j as nat),
        decreases want@.len() - j,
    {
        let k = &want[j];
        let earlier = subscription_wanted_exec(want, k, j);
        let mut has_row = false;
        let mut q: usize = 0;
        while q < rows.len()
            invariant
                0 <= q <= rows@.len(),
                j < want@.len(),
                k == &want@[j as int],
                has_row == exists|z: int| 0 <= z < q && #[trigger] rows@[z].source_id == *k,
            decreases rows@.len() - q,
        {
            if rows[q].source_id == *k {
                has_row = true;
            }
            q = q + 1;
        }
        if !has_row && !earlier {
            let ghost prev = add@;
            add.push(*k);
            proof {
                assert(add@.map_values(|x: i32| x) =~= prev.map_values(|x: i32| x).push(want@[j as int]));
            }
        }
        j = j + 1;
    }
    SubscriptionDiff { keep, restore, add, remove }
}

pub proof fn lemma_subscription_ids_of(rows: Seq<SubscriptionRow>, want: Seq<i32>, c: DiffClass, n: nat, i: int)
    requires
        0 <= i < n <= rows.len(),
        subscription_class(rows, want, i) == c,
    ensures
        subscription_ids_of(rows, want, c, n).contains(rows[i].id),
    decreases n,
{
    let p = subscription_ids_of(rows, want, c, (n - 1) as nat);
    if i < n - 1 {
        lemma_subscription_ids_of(rows, want, c, (n - 1) as nat, i);
        let z = choose|z: int| 0 <= z < p.len() && p[z] == rows[i].id;
        assert(subscription_ids_of(rows, want, c, n)[z] == rows[i].id);
    } else {
        assert(subscription_ids_of(rows, want, c, n)[p.len() as int] == rows[i].id);
    }
}

pub proof fn lemma_subscription_adds_fresh(rows: Seq<SubscriptionRow>, want: Seq<i32>, n: nat, k: i32)
    requires
        n <= want.len(),
        subscription_has_row(rows, k),
    ensures
        !subscription_adds(rows, want, n).contains(k),
    decreases n,
{
    if n > 0 {
        lemma_subscription_adds_fresh(rows, want, (n - 1) as nat, k);
    }
}

/// Restore semantics: a wanted interest whose rows are all soft-deleted
/// gets its first such row back, with the same id, and is not created
/// anew.
pub proof fn lemma_interest_restore(rows: Seq<InterestRow>, want: Seq<String>, i: int)
    requires
        0 <= i < rows.len(),
        interest_first_deleted(rows, i),
        interest_wanted(want, rows[i].interest@),
        !interest_has_active(rows, rows[i].interest@),
    ensures
        interest_ids_of(rows, want, DiffClass::Restore, rows.len() as nat).contains(rows[i].id),
        !interest_adds(rows, want, want.len() as nat).contains(rows[i].interest@),
{
    lemma_interest_ids_of(rows, want, DiffClass::Restore, rows.len() as nat, i);
    assert(interest_has_row(rows, rows[i].interest@));
    lemma_interest_adds_fresh(rows, want, want.len() as nat, rows[i].interest@);
}

/// The same restore semantics for subscriptions, keyed by source.
pub proof fn lemma_subscription_restore(rows: Seq<SubscriptionRow>, want: Seq<i32>, i: int)
    requires
        0 <= i < rows.len(),
        subscription_first_deleted(rows, i),
        subscription_wanted(want, rows[i].source_id),
        !subscription_has_active(rows, rows[i].source_id),
    ensures
        subscription_ids_of(rows, want, DiffClass::Restore, rows.len() as nat).contains(rows[i].id),
        !subscription_adds(rows, want, want.len() as nat).contains(rows[i].source_id),
{
    lemma_subscription_ids_of(rows, want, DiffClass::Restore, rows.len() as nat, i);
    assert(subscription_has_row(rows, rows[i].source_id));
    lemma_subscription_adds_fresh(rows, want, want.len() as nat, rows[i].source_id);
}

/// Whether row `i` is soft-deleted once the changes are applied.
pub open spec fn interest_deleted_after(rows: Seq<InterestRow>, want: Seq<String>, i: int) -> bool {
    match interest_class(rows, want, i) {
        DiffClass::Keep => false,
        DiffClass::Restore => false,
        DiffClass::Remove => true,
        DiffClass::Untouched => rows[i].deleted,
    }
}

/// `r` is `rows` brought to `want`: each row keeps its id and interest and
/// gets its new deletion mark; after them come the created rows, with ids
/// from `next_id` on.
pub open spec fn interest_updated(rows: Seq<InterestRow>, want: Seq<String>, next_id: int, r: Seq<InterestRow>) -> bool {
    let adds = interest_adds(rows, want, want.len() as nat);
    &&& r.len() == rows.len() + adds.len()
    &&& forall|i: int| 0 <= i < rows.len() ==> {
        &&& (#[trigger] r[i]).id == rows[i].id
        &&& r[i].interest == rows[i].interest
        &&& r[i].deleted == interest_deleted_after(rows, want, i)
    }
    &&& forall|k: int| 0 <= k < adds.len() ==> {
        &&& (#[trigger] r[rows.len() + k]).id == next_id + k
        &&& r[rows.len() + k].interest@ == adds[k]
        &&& !r[rows.len() + k].deleted
    }
}

/// No two active rows share a interest.
pub open spec fn interest_one_active_each(rows: Seq<InterestRow>) -> bool {
    forall|i: int, j: int|
        0 <= i < rows.len() && 0 <= j < rows.len() && i != j && !rows[i].deleted && !rows[j].deleted ==> (
        #[trigger] rows[i].interest@) != (#[trigger] rows[j].interest@)
}

proof fn interest_lemma_adds(rows: Seq<InterestRow>, want: Seq<String>, n: nat)
    requires
        n <= want.len(),
    ensures
        interest_adds(rows, want, n).len() <= n,
        interest_adds(rows, want, n).no_duplicates(),
        forall|k: Seq<char>| #[trigger] interest_adds(rows, want, n).contains(k) ==> !interest_has_row(rows, k) && interest_wanted(want.take(n as int), k),
        forall|k: Seq<char>| interest_wanted(want.take(n as int), k) && !interest_has_row(rows, k) ==> #[trigger] interest_adds(rows, want, n).contains(k),
    decreases n,
{
    if n > 0 {
        let m = (n - 1) as nat;
        interest_lemma_adds(rows, want, m);
        let p = interest_adds(rows, want, m);
        let x = want[m as int]@;
        let a = interest_adds(rows, want, n);
        assert forall|k: Seq<char>| interest_wanted(want.take(n as int), k) <==> (interest_wanted(want.take(m as int), k) || k == x) by {
            if interest_wanted(want.take(n as int), k) {
                let j = choose|j: int| 0 <= j < want.take(n as int).len() && #[trigger] want.take(n as int)[j]@ == k;
                if j < m {
                    assert(want.take(m as int)[j] == want[j]);
                }
            }
            if interest_wanted(want.take(m as int), k) {
                let j = choose|j: int| 0 <= j < want.take(m as int).len() && #[trigger] want.take(m as int)[j]@ == k;
                assert(want.take(n as int)[j] == want[j]);
            }
            if k == x {
                assert(want.take(n as int)[m as int] == want[m as int]);
            }
        }
        assert forall|k: Seq<char>| #[trigger] a.contains(k) <==> (p.contains(k) || (k == x && !interest_has_row(rows, x) && !interest_wanted(want.take(m as int), x))) by {
            if a.contains(k) && a != p {
                let j = choose|j: int| 0 <= j < a.len() && a[j] == k;
                if j < p.len() {
                    assert(a[j] == p[j]);
                }
            }
            if p.contains(k) && a != p {
                let j = choose|j: int| 0 <= j < p.len() && p[j] == k;
                assert(a[j] == p[j]);
            }
            if k == x && !interest_has_row(rows, x) && !interest_wanted(want.take(m as int), x) {
                assert(a[a.len() - 1] == x);
            }
        }
        if a != p {
            assert forall|i: int, j: int| 0 <= i < a.len() && 0 <= j < a.len() && i != j implies a[i] != a[j] by {
                if i < p.len() && j < p.len() {
                    assert(a[i] == p[i] && a[j] == p[j]);
                } else if i < p.len() {
                    assert(p.contains(a[i]));
                } else if j < p.len() {
                    assert(p.contains(a[j]));
                }
            }
        }
    }
}

proof fn interest_lemma_first(rows: Seq<InterestRow>, k: Seq<char>, j: int)
    requires
        0 <= j <= rows.len(),
        forall|q: int| 0 <= q < j ==> (#[trigger] rows[q]).interest@ != k,
        exists|q: int| j <= q < rows.len() && (#[trigger] rows[q]).interest@ == k,
    ensures
        exists|i: int| 0 <= i < rows.len() && (#[trigger] rows[i]).interest@ == k && forall|q: int|
            0 <= q < i ==> (#[trigger] rows[q]).interest@ != k,
    decreases rows.len() - j,
{
    if rows[j].interest@ != k {
        interest_lemma_first(rows, k, j + 1);
    }
}

/// After an update, the active interests are exactly the wanted ones, and
/// if no two active rows shared a interest before, none do after.
pub proof fn lemma_interest_update(rows: Seq<InterestRow>, want: Seq<String>, next_id: int, r: Seq<InterestRow>)
    requires
        interest_updated(rows, want, next_id, r),
    ensures
        forall|k: Seq<char>| #[trigger] interest_has_active(r, k) <==> interest_wanted(want, k),
        interest_one_active_each(rows) ==> interest_one_active_each(r),
{
    let n = want.len() as nat;
    let adds = interest_adds(rows, want, n);
    interest_lemma_adds(rows, want, n);
    assert(want.take(n as int) =~= want);
    assert forall|k: Seq<char>| #[trigger] interest_has_active(r, k) <==> interest_wanted(want, k) by {
        if interest_has_active(r, k) {
            let i = choose|i: int| 0 <= i < r.len() && !r[i].deleted && #[trigger] r[i].interest@ == k;
            if i >= rows.len() {
                let q = i - rows.len();
                assert(r[rows.len() + q].interest@ == adds[q]);
                assert(adds.contains(k));
            } else {
                assert(r[i].interest == rows[i].interest);
            }
        }
        if interest_wanted(want, k) {
            if interest_has_active(rows, k) {
                let i = choose|i: int| 0 <= i < rows.len() && !rows[i].deleted && #[trigger] rows[i].interest@ == k;
                assert(r[i].interest == rows[i].interest);
                assert(!r[i].deleted && r[i].interest@ == k);
            } else if interest_has_row(rows, k) {
                interest_lemma_first(rows, k, 0);
                let i = choose|i: int| 0 <= i < rows.len() && (#[trigger] rows[i]).interest@ == k && forall|q: int|
                    0 <= q < i ==> (#[trigger] rows[q]).interest@ != k;
                assert(rows[i].deleted);
                assert(interest_first_deleted(rows, i));
                assert(r[i].interest == rows[i].interest);
                assert(!r[i].deleted && r[i].interest@ == k);
            } else {
                assert(adds.contains(k));
                let q = choose|q: int| 0 <= q < adds.len() && adds[q] == k;
                assert(r[rows.len() + q].interest@ == adds[q]);
                assert(!r[rows.len() + q].deleted && r[rows.len() + q].interest@ == k);
            }
        }
    }
    if interest_one_active_each(rows) {
        assert forall|i: int, j: int|
            0 <= i < r.len() && 0 <= j < r.len() && i != j && !r[i].deleted && !r[j].deleted implies (
            #[trigger] r[i].interest@) != (#[trigger] r[j].interest@) by {
            if i < rows.len() && j < rows.len() {
                assert(r[i].interest == rows[i].interest && r[j].interest == rows[j].interest);
                let ki = rows[i].interest@;
                if ki == rows[j].interest@ {
                    if !rows[i].deleted && !rows[j].deleted {
                    } else if !rows[i].deleted {
                        assert(interest_has_active(rows, ki));
                    } else if !rows[j].deleted {
                        assert(!rows[j].deleted && rows[j].interest@ == ki);
                        assert(interest_has_active(rows, ki));
                    } else if i < j {
                        assert(rows[i].deleted && rows[i].interest@ == rows[j].interest@);
                    } else {
                        assert(rows[j].deleted && rows[j].interest@ == rows[i].interest@);
                    }
                }
            } else if i < rows.len() {
                let q = j - rows.len();
                assert(r[rows.len() + q].interest@ == adds[q]);
                assert(adds.contains(adds[q]));
                assert(r[i].interest == rows[i].interest);
                if r[i].interest@ == r[j].interest@ {
                    assert(interest_has_row(rows, rows[i].interest@));
                }
            } else if j < rows.len() {
                let q = i - rows.len();
                assert(r[rows.len() + q].interest@ == adds[q]);
                assert(adds.contains(adds[q]));
                assert(r[j].interest == rows[j].interest);
                if r[i].interest@ == r[j].interest@ {
                    assert(interest_has_row(rows, rows[j].interest@));
                }
            } else {
                let qi = i - rows.len();
                let qj = j - rows.len();
                assert(r[rows.len() + qi].interest@ == adds[qi]);
                assert(r[rows.len() + qj].interest@ == adds[qj]);
            }
        }
    }
}

/// Brings the rows of a user to the wanted list `want`, as the plan of
/// `plan_interest_diff` says: kept rows are left alone, restored rows become active
/// again under their own id, removed rows are soft-deleted, and each
/// interest with no row gets a new active row, ids counting up from
/// `next_id`.
pub fn update_interest_rows(rows: &Vec<InterestRow>, want: &Vec<String>, next_id: i64) -> (r: Vec<InterestRow>)
    requires
        next_id + want@.len() <= i64::MAX,
    ensures
        interest_updated(rows@, want@, next_id as int, r@),
{
    let plan = plan_interest_diff(rows, want);
    proof {
        interest_lemma_adds(rows@, want@, want@.len() as nat);
    }
    let mut out: Vec<InterestRow> = Vec::new();
    let mut i: usize = 0;
    while i < rows.len()
        invariant
            0 <= i <= rows@.len(),
            out@.len() == i,
            forall|q: int| 0 <= q < i ==> {
                &&& (#[trigger] out@[q]).id == rows@[q].id
                &&& out@[q].interest == rows@[q].interest
                &&& out@[q].deleted == interest_deleted_after(rows@, want@, q)
            },
        decreases rows@.len() - i,
    {
        let c = interest_class_exec(rows, want, i);
        let deleted = match c {
            DiffClass::Keep => false,
            DiffClass::Restore => false,
            DiffClass::Remove => true,
            DiffClass::Untouched => rows[i].deleted,
        };
        out.push(InterestRow { id: rows[i].id, interest: rows[i].interest.clone(), deleted });
        i = i + 1;
    }
    let mut k: usize = 0;
    let mut id: i64 = next_id;
    let ghost adds = interest_adds(rows@, want@, want@.len() as nat);
    while k < plan.add.len()
        invariant
            0 <= k <= plan.add@.len(),
            plan.add@.map_values(|x: String| x@) == adds,
            adds.len() <= want@.len(),
            next_id + want@.len() <= i64::MAX,
            out@.len() == rows@.len() + k,
            id == next_id + k,
            forall|q: int| 0 <= q < rows@.len() ==> {
                &&& (#[trigger] out@[q]).id == rows@[q].id
                &&& out@[q].interest == rows@[q].interest
                &&& out@[q].deleted == interest_deleted_after(rows@, want@, q)
            },
            forall|q: int| 0 <= q < k ==> {
                &&& (#[trigger] out@[rows@.len() + q]).id == next_id + q
                &&& out@[rows@.len() + q].interest@ == adds[q]
                &&& !out@[rows@.len() + q].deleted
            },
        decreases plan.add@.len() - k,
    {
        proof {
            assert(plan.add@.map_values(|x: String| x@)[k as int] == plan.add@[k as int]@);
            assert(plan.add@.map_values(|x: String| x@).len() == plan.add@.len());
        }
        let ghost prev = out@;
        out.push(InterestRow { id, interest: plan.add[k].clone(), deleted: false });
        proof {
            assert forall|q: int| 0 <= q < k + 1 implies {
                &&& (#[trigger] out@[rows@.len() + q]).id == next_id + q
                &&& out@[rows@.len() + q].interest@ == adds[q]
                &&& !out@[rows@.len() + q].deleted
            } by {
                if q < k {
                    assert(out@[rows@.len() + q] == prev[rows@.len() + q]);
                } else {
                    assert(out@[rows@.len() + q] == out@[out@.len() - 1]);
                }
            }
            assert forall|q: int| 0 <= q < rows@.len() implies {
                &&& (#[trigger] out@[q]).id == rows@[q].id
                &&& out@[q].interest == rows@[q].interest
                &&& out@[q].deleted == interest_deleted_after(rows@, want@, q)
            } by {
                assert(out@[q] == prev[q]);
            }
        }
        k = k + 1;
        id = id + 1;
    }
    out
}

/// Whether row `i` is soft-deleted once the changes are applied.
pub open spec fn subscription_deleted_after(rows: Seq<SubscriptionRow>, want: Seq<i32>, i: int) -> bool {
    match subscription_class(rows, want, i) {
        DiffClass::Keep => false,
        DiffClass::Restore => false,
        DiffClass::Remove => true,
        DiffClass::Untouched => rows[i].deleted,
    }
}

/// `r` is `rows` brought to `want`: each row keeps its id and source and
/// gets its new deletion mark; after them come the created rows, with ids
/// from `next_id` on.
pub open spec fn subscription_updated(rows: Seq<SubscriptionRow>, want: Seq<i32>, next_id: int, r: Seq<SubscriptionRow>) -> bool {
    let adds = subscription_adds(rows, want, want.len() as nat);
    &&& r.len() == rows.len() + adds.len()
    &&& forall|i: int| 0 <= i < rows.len() ==> {
        &&& (#[trigger] r[i]).id == rows[i].id
        &&& r[i].source_id == rows[i].source_id
        &&& r[i].deleted == subscription_deleted_after(rows, want, i)
    }
    &&& forall|k: int| 0 <= k < adds.len() ==> {
        &&& (#[trigger] r[rows.len() + k]).id == next_id + k
        &&& r[rows.len() + k].source_id == adds[k]
        &&& !r[rows.len() + k].deleted
    }
}

/// No two active rows share a source.
pub open spec fn subscription_one_active_each(rows: Seq<SubscriptionRow>) -> bool {
    forall|i: int, j: int|
        0 <= i < rows.len() && 0 <= j < rows.len() && i != j && !rows[i].deleted && !rows[j].deleted ==> (
        #[trigger] rows[i].source_id) != (#[trigger] rows[j].source_id)
}

proof fn subscription_lemma_adds(rows: Seq<SubscriptionRow>, want: Seq<i32>, n: nat)
    requires
        n <= want.len(),
    ensures
        subscription_adds(rows, want, n).len() <= n,
        subscription_adds(rows, want, n).no_duplicates(),
        forall|k: i32| #[trigger] subscription_adds(rows, want, n).contains(k) ==> !subscription_has_row(rows, k) && subscription_wanted(want.take(n as int), k),
        forall|k: i32| subscription_wanted(want.take(n as int), k) && !subscription_has_row(rows, k) ==> #[trigger] subscription_adds(rows, want, n).contains(k),
    decreases n,
{
    if n > 0 {
        let m = (n - 1) as nat;
        subscription_lemma_adds(rows, want, m);
        let p = subscription_adds(rows, want, m);
        let x = want[m as int];
        let a = subscription_adds(rows, want, n);
        assert forall|k: i32| subscription_wanted(want.take(n as int), k) <==> (subscription_wanted(want.take(m as int), k) || k == x) by {
            if subscription_wanted(want.take(n as int), k) {
                let j = choose|j: int| 0 <= j < want.take(n as int).len() && #[trigger] want.take(n as int)[j] == k;
                if j < m {
                    assert(want.take(m as int)[j] == want[j]);
                }
            }
            if subscription_wanted(want.take(m as int), k) {
                let j = choose|j: int| 0 <= j < want.take(m as int).len() && #[trigger] want.take(m as int)[j] == k;
                assert(want.take(n as int)[j] == want[j]);
            }
            if k == x {
                assert(want.take(n as int)[m as int] == want[m as int]);
            }
        }
        assert forall|k: i32| #[trigger] a.contains(k) <==> (p.contains(k) || (k == x && !subscription_has_row(rows, x) && !subscription_wanted(want.take(m as int), x))) by {
            if a.contains(k) && a != p {
                let j = choose|j: int| 0 <= j < a.len() && a[j] == k;
                if j < p.len() {
                    assert(a[j] == p[j]);
                }
            }
            if p.contains(k) && a != p {
                let j = choose|j: int| 0 <= j < p.len() && p[j] == k;
                assert(a[j] == p[j]);
            }
            if k == x && !subscription_has_row(rows, x) && !subscription_wanted(want.take(m as int), x) {
                assert(a[a.len() - 1] == x);
            }
        }
        if a != p {
            assert forall|i: int, j: int| 0 <= i < a.len() && 0 <= j < a.len() && i != j implies a[i] != a[j] by {
                if i < p.len() && j < p.len() {
                    assert(a[i] == p[i] && a[j] == p[j]);
                } else if i < p.len() {
                    assert(p.contains(a[i]));
                } else if j < p.len() {
                    assert(p.contains(a[j]));
                }
            }
        }
    }
}

proof fn subscription_lemma_first(rows: Seq<SubscriptionRow>, k: i32, j: int)
    requires
        0 <= j <= rows.len(),
        forall|q: int| 0 <= q < j ==> (#[trigger] rows[q]).source_id != k,
        exists|q: int| j <= q < rows.len() && (#[trigger] rows[q]).source_id == k,
    ensures
        exists|i: int| 0 <= i < rows.len() && (#[trigger] rows[i]).source_id == k && forall|q: int|
            0 <= q < i ==> (#[trigger] rows[q]).source_id != k,
    decreases rows.len() - j,
{
    if rows[j].source_id != k {
        subscription_lemma_first(rows, k, j + 1);
    }
}

/// After an update, the active sources are exactly the wanted ones, and
/// if no two active rows shared a source before, none do after.
pub proof fn lemma_subscription_update(rows: Seq<SubscriptionRow>, want: Seq<i32>, next_id: int, r: Seq<SubscriptionRow>)
    requires
        subscription_updated(rows, want, next_id, r),
    ensures
        forall|k: i32| #[trigger] subscription_has_active(r, k) <==> subscription_wanted(want, k),
        subscription_one_active_each(rows) ==> subscription_one_active_each(r),
{
    let n = want.len() as nat;
    let adds = subscription_adds(rows, want, n);
    subscription_lemma_adds(rows, want, n);
    assert(want.take(n as int) =~= want);
    assert forall|k: i32| #[trigger] subscription_has_active(r, k) <==> subscription_wanted(want, k) by {
        if subscription_has_active(r, k) {
            let i = choose|i: int| 0 <= i < r.len() && !r[i].deleted && #[trigger] r[i].source_id == k;
            if i >= rows.len() {
                let q = i - rows.len();
                assert(r[rows.len() + q].source_id == adds[q]);
                assert(adds.contains(k));
            } else {
                assert(r[i].source_id == rows[i].source_id);
            }
        }
        if subscription_wanted(want, k) {
            if subscription_has_active(rows, k) {
                let i = choose|i: int| 0 <= i < rows.len() && !rows[i].deleted && #[trigger] rows[i].source_id == k;
                assert(r[i].source_id == rows[i].source_id);
                assert(!r[i].deleted && r[i].source_id == k);
            } else if subscription_has_row(rows, k) {
                subscription_lemma_first(rows, k, 0);
                let i = choose|i: int| 0 <= i < rows.len() && (#[trigger] rows[i]).source_id == k && forall|q: int|
                    0 <= q < i ==> (#[trigger] rows[q]).source_id != k;
                assert(rows[i].deleted);
                assert(subscription_first_deleted(rows, i));
                assert(r[i].source_id == rows[i].source_id);
                assert(!r[i].deleted && r[i].source_id == k);
            } else {
                assert(adds.contains(k));
                let q = choose|q: int| 0 <= q < adds.len() && adds[q] == k;
                assert(r[rows.len() + q].source_id == adds[q]);
                assert(!r[rows.len() + q].deleted && r[rows.len() + q].source_id == k);
            }
        }
    }
    if subscription_one_active_each(rows) {
        assert forall|i: int, j: int|
            0 <= i < r.len() && 0 <= j < r.len() && i != j && !r[i].deleted && !r[j].deleted implies (
            #[trigger] r[i].source_id) != (#[trigger] r[j].source_id) by {
            if i < rows.len() && j < rows.len() {
                assert(r[i].source_id == rows[i].source_id && r[j].source_id == rows[j].source_id);
                let ki = rows[i].source_id;
                if ki == rows[j].source_id {
                    if !rows[i].deleted && !rows[j].deleted {
                    } else if !rows[i].deleted {
                        assert(subscription_has_active(rows, ki));
                    } else if !rows[j].deleted {
                        assert(!rows[j].deleted && rows[j].source_id == ki);
                        assert(subscription_has_active(rows, ki));
                    } else if i < j {
                        assert(rows[i].deleted && rows[i].source_id == rows[j].source_id);
                    } else {
                        assert(rows[j].deleted && rows[j].source_id == rows[i].source_id);
                    }
                }
            } else if i < rows.len() {
                let q = j - rows.len();
                assert(r[rows.len() + q].source_id == adds[q]);
                assert(adds.contains(adds[q]));
                assert(r[i].source_id == rows[i].source_id);
                if r[i].source_id == r[j].source_id {
                    assert(subscription_has_row(rows, rows[i].source_id));
                }
            } else if j < rows.len() {
                let q = i - rows.len();
                assert(r[rows.len() + q].source_id == adds[q]);
                assert(adds.contains(adds[q]));
                assert(r[j].source_id == rows[j].source_id);
                if r[i].source_id == r[j].source_id {
                    assert(subscription_has_row(rows, rows[j].source_id));
                }
            } else {
                let qi = i - rows.len();
                let qj = j - rows.len();
                assert(r[rows.len() + qi].source_id == adds[qi]);
                assert(r[rows.len() + qj].source_id == adds[qj]);
            }
        }
    }
}

/// Brings the rows of a user to the wanted list `want`, as the plan of
/// `plan_subscription_diff` says: kept rows are left alone, restored rows become active
/// again under their own id, removed rows are soft-deleted, and each
/// source with no row gets a new active row, ids counting up from
/// `next_id`.
pub fn update_subscription_rows(rows: &Vec<SubscriptionRow>, want: &Vec<i32>, next_id: i64) -> (r: Vec<SubscriptionRow>)
    requires
        next_id + want@.len() <= i64::MAX,
    ensures
        subscription_updated(rows@, want@, next_id as int, r@),
{
    let plan = plan_subscription_diff(rows, want);
    proof {
        subscription_lemma_adds(rows@, want@, want@.len() as nat);
    }
    let mut out: Vec<SubscriptionRow> = Vec::new();
    let mut i: usize = 0;
    while i < rows.len()
        invariant
            0 <= i <= rows@.len(),
            out@.len() == i,
            forall|q: int| 0 <= q < i ==> {
                &&& (#[trigger] out@[q]).id == rows@[q].id
                &&& out@[q].source_id == rows@[q].source_id
                &&& out@[q].deleted == subscription_deleted_after(rows@, want@, q)
            },
        decreases rows@.len() - i,
    {
        let c = subscription_class_exec(rows, want, i);
        let deleted = match c {
            DiffClass::Keep => false,
            DiffClass::Restore => false,
            DiffClass::Remove => true,
            DiffClass::Untouched => rows[i].deleted,
        };
        out.push(SubscriptionRow { id: rows[i].id, source_id: rows[i].source_id, deleted });
        i = i + 1;
    }
    let mut k: usize = 0;
    let mut id: i64 = next_id;
    let ghost adds = subscription_adds(rows@, want@, want@.len() as nat);
    while k < plan.add.len()
        invariant
            0 <= k <= plan.add@.len(),
            plan.add@.map_values(|x: i32| x) == adds,
            adds.len() <= want@.len(),
            next_id + want@.len() <= i64::MAX,
            out@.len() == rows@.len() + k,
            id == next_id + k,
            forall|q: int| 0 <= q < rows@.len() ==> {
                &&& (#[trigger] out@[q]).id == rows@[q].id
                &&& out@[q].source_id == rows@[q].source_id
                &&& out@[q].deleted == subscription_deleted_after(rows@, want@, q)
            },
            forall|q: int| 0 <= q < k ==> {
                &&& (#[trigger] out@[rows@.len() + q]).id == next_id + q
                &&& out@[rows@.len() + q].source_id == adds[q]
                &&& !out@[rows@.len() + q].deleted
            },
        decreases plan.add@.len() - k,
    {
        proof {
            assert(plan.add@.map_values(|x: i32| x)[k as int] == plan.add@[k as int]);
            assert(plan.add@.map_values(|x: i32| x).len() == plan.add@.len());
        }
        let ghost prev = out@;
        out.push(SubscriptionRow { id, source_id: plan.add[k], deleted: false });
        proof {
            assert forall|q: int| 0 <= q < k + 1 implies {
                &&& (#[trigger] out@[rows@.len() + q]).id == next_id + q
                &&& out@[rows@.len() + q].source_id == adds[q]
                &&& !out@[rows@.len() + q].deleted
            } by {
                if q < k {
                    assert(out@[rows@.len() + q] == prev[rows@.len() + q]);
                } else {
                    assert(out@[rows@.len() + q] == out@[out@.len() - 1]);
                }
            }
            assert forall|q: int| 0 <= q < rows@.len() implies {
                &&& (#[trigger] out@[q]).id == rows@[q].id
                &&& out@[q].source_id == rows@[q].source_id
                &&& out@[q].deleted == subscription_deleted_after(rows@, want@, q)
            } by {
                assert(out@[q] == prev[q]);
            }
        }
        k = k + 1;
        id = id + 1;
    }
    out
}

} // verus!
