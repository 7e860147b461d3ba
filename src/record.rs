use vstd::prelude::*;
use crate::sources::starts_with;

verus! {

/// A stored row identified by a textual key.
pub trait Record: Sized {
    /// The row's primary key.
    spec fn key(&self) -> Seq<char>;

    /// Whether `other` holds the same content as `self`.
    spec fn same(&self, other: &Self) -> bool;

    fn id_ref(&self) -> (r: &String)
        ensures
            r@ == self.key(),
    ;

    fn duplicate(&self) -> (r: Self)
        ensures
            r.same(self),
            r.key() == self.key(),
    ;
}

/// A row type with the order in which its table is listed.
pub trait Ordered: Record {
    /// Whether `self` is listed strictly before `other`.
    spec fn before(&self, other: &Self) -> bool;

    fn comes_before(&self, other: &Self) -> (r: bool)
        ensures
            r == self.before(other),
    ;

    proof fn lemma_before_irreflexive(a: &Self)
        ensures
            !a.before(a),
    ;

    proof fn lemma_before_transitive(a: &Self, b: &Self, c: &Self)
        requires
            a.before(b),
            b.before(c),
        ensures
            a.before(c),
    ;
}

/// No two rows share a key.
pub open spec fn keys_unique<T: Record>(rows: Seq<T>) -> bool {
    forall|i: int, j: int|
        0 <= i < rows.len() && 0 <= j < rows.len() && i != j ==> #[trigger] rows[i].key()
            != #[trigger] rows[j].key()
}

/// Some row has key `k`.
pub open spec fn has_key<T: Record>(rows: Seq<T>, k: Seq<char>) -> bool {
    exists|i: int| 0 <= i < rows.len() && #[trigger] rows[i].key() == k
}

/// Some row's key starts with `p`.
pub open spec fn some_key_starts_with<T: Record>(rows: Seq<T>, p: Seq<char>) -> bool {
    exists|i: int| 0 <= i < rows.len() && #[trigger] starts_with(rows[i].key(), p)
}

/// A stored key that starts with `p` is a key starting with `p`.
pub proof fn lemma_key_with_prefix<T: Record>(rows: Seq<T>, k: Seq<char>, p: Seq<char>)
    requires
        has_key(rows, k),
        starts_with(k, p),
    ensures
        some_key_starts_with(rows, p),
{
    let i = choose|i: int| 0 <= i < rows.len() && #[trigger] rows[i].key() == k;
    assert(starts_with(rows[i].key(), p));
}

/// The row with key `k`, if there is one.
pub open spec fn row_of<T: Record>(rows: Seq<T>, k: Seq<char>) -> Option<T> {
    if has_key(rows, k) {
        Some(rows[choose|i: int| 0 <= i < rows.len() && #[trigger] rows[i].key() == k])
    } else {
        None
    }
}

/// Where the keys are unique, the row found at `i` is the row of its key.
pub proof fn lemma_row_of_index<T: Record>(rows: Seq<T>, i: int)
    requires
        keys_unique(rows),
        0 <= i < rows.len(),
    ensures
        has_key(rows, rows[i].key()),
        row_of(rows, rows[i].key()) == Some(rows[i]),
{
    let k = rows[i].key();
    assert(has_key(rows, k));
    let j = choose|j: int| 0 <= j < rows.len() && #[trigger] rows[j].key() == k;
    assert(j == i);
}

/// Two tables with the same keys at the same positions agree on which keys
/// they hold and on their uniqueness.
pub proof fn lemma_keys_kept<T: Record>(old: Seq<T>, new: Seq<T>)
    requires
        new.len() == old.len(),
        forall|i: int| 0 <= i < old.len() ==> #[trigger] new[i].key() == old[i].key(),
    ensures
        forall|k: Seq<char>| #[trigger] has_key(new, k) == has_key(old, k),
        keys_unique(new) == keys_unique(old),
{
    assert forall|k: Seq<char>| #[trigger] has_key(new, k) == has_key(old, k) by {
        if has_key(new, k) {
            let i = choose|i: int| 0 <= i < new.len() && #[trigger] new[i].key() == k;
            assert(old[i].key() == k);
        }
        if has_key(old, k) {
            let i = choose|i: int| 0 <= i < old.len() && #[trigger] old[i].key() == k;
            assert(new[i].key() == k);
        }
    }
    if keys_unique(old) {
        assert forall|i: int, j: int|
            0 <= i < new.len() && 0 <= j < new.len() && i != j implies #[trigger] new[i].key()
            != #[trigger] new[j].key() by {
            assert(old[i].key() != old[j].key());
        }
    }
    if keys_unique(new) {
        assert forall|i: int, j: int|
            0 <= i < old.len() && 0 <= j < old.len() && i != j implies #[trigger] old[i].key()
            != #[trigger] old[j].key() by {
            assert(new[i].key() != new[j].key());
        }
    }
}

/// What appending a row does to the keys of a table.
pub proof fn lemma_push_keys<T: Record>(rows: Seq<T>, x: T)
    ensures
        forall|k: Seq<char>| #[trigger] has_key(rows.push(x), k) == (has_key(rows, k) || x.key() == k),
        keys_unique(rows) && !has_key(rows, x.key()) ==> keys_unique(rows.push(x)),
{
    let s = rows.push(x);
    assert forall|k: Seq<char>| #[trigger] has_key(s, k) == (has_key(rows, k) || x.key() == k) by {
        if has_key(s, k) {
            let i = choose|i: int| 0 <= i < s.len() && #[trigger] s[i].key() == k;
            if i < rows.len() {
                assert(rows[i].key() == k);
            }
        }
        if has_key(rows, k) {
            let i = choose|i: int| 0 <= i < rows.len() && #[trigger] rows[i].key() == k;
            assert(s[i].key() == k);
        }
        if x.key() == k {
            assert(s[rows.len() as int].key() == k);
        }
    }
    if keys_unique(rows) && !has_key(rows, x.key()) {
        assert forall|i: int, j: int|
            0 <= i < s.len() && 0 <= j < s.len() && i != j implies #[trigger] s[i].key()
            != #[trigger] s[j].key() by {
            if i < rows.len() && j < rows.len() {
                assert(rows[i].key() != rows[j].key());
            } else if i < rows.len() {
                assert(rows[i].key() != x.key());
            } else {
                assert(rows[j].key() != x.key());
            }
        }
    }
}

/// Filtering a table keeps its keys unique, and holds exactly the keys of
/// the rows that pass.
pub proof fn lemma_filter_keys<T: Record>(rows: Seq<T>, pick: spec_fn(T) -> bool)
    requires
        keys_unique(rows),
    ensures
        keys_unique(rows.filter(pick)),
        forall|k: Seq<char>|
            #[trigger] has_key(rows.filter(pick), k) <==> exists|i: int|
                0 <= i < rows.len() && #[trigger] rows[i].key() == k && pick(rows[i]),
    decreases rows.len(),
{
    let f = rows.filter(pick);
    if rows.len() == 0 {
        assert(f =~= rows);
    } else {
        let s = rows.drop_last();
        let x = rows.last();
        assert(rows =~= s.push(x));
        assert forall|i: int, j: int|
            0 <= i < s.len() && 0 <= j < s.len() && i != j implies #[trigger] s[i].key()
            != #[trigger] s[j].key() by {
            assert(rows[i].key() != rows[j].key());
        }
        lemma_filter_keys(s, pick);
        s.lemma_filter_push(x, pick);
        let g = s.filter(pick);
        lemma_push_keys(g, x);
        if has_key(g, x.key()) {
            let i = choose|i: int| 0 <= i < s.len() && #[trigger] s[i].key() == x.key() && pick(s[i]);
            assert(rows[i].key() != rows[rows.len() - 1].key());
        }
        assert forall|k: Seq<char>|
            #[trigger] has_key(f, k) <==> exists|i: int|
                0 <= i < rows.len() && #[trigger] rows[i].key() == k && pick(rows[i]) by {
            if has_key(f, k) {
                if has_key(g, k) {
                    let i = choose|i: int| 0 <= i < s.len() && #[trigger] s[i].key() == k && pick(s[i]);
                    assert(rows[i] == s[i]);
                } else {
                    assert(rows[rows.len() - 1].key() == k);
                }
            }
            if exists|i: int| 0 <= i < rows.len() && #[trigger] rows[i].key() == k && pick(rows[i]) {
                let i = choose|i: int| 0 <= i < rows.len() && #[trigger] rows[i].key() == k && pick(rows[i]);
                if i < s.len() {
                    assert(s[i] == rows[i]);
                    assert(has_key(g, k));
                }
            }
        }
    }
}

/// Filtering with a predicate that every row meets keeps every row.
pub proof fn lemma_filter_all<T>(rows: Seq<T>, pick: spec_fn(T) -> bool)
    requires
        forall|j: int| 0 <= j < rows.len() ==> pick(#[trigger] rows[j]),
    ensures
        rows.filter(pick) == rows,
    decreases rows.len(),
{
    if rows.len() > 0 {
        let s = rows.drop_last();
        assert(rows =~= s.push(rows.last()));
        assert forall|j: int| 0 <= j < s.len() implies pick(#[trigger] s[j]) by {
            assert(rows[j] == s[j]);
        }
        lemma_filter_all(s, pick);
        s.lemma_filter_push(rows.last(), pick);
    } else {
        assert(rows.filter(pick) =~= rows);
    }
}

/// The predicate "has a key other than `k`".
pub open spec fn key_other_than<T: Record>(k: Seq<char>) -> spec_fn(T) -> bool {
    |x: T| x.key() != k
}

/// Where the keys are unique, removing the row at `i` filters out its key.
pub proof fn lemma_remove_is_filter<T: Record>(rows: Seq<T>, i: int)
    requires
        keys_unique(rows),
        0 <= i < rows.len(),
    ensures
        rows.remove(i) == rows.filter(key_other_than::<T>(rows[i].key())),
    decreases rows.len(),
{
    let k = rows[i].key();
    let pick = key_other_than::<T>(k);
    let s = rows.drop_last();
    let x = rows.last();
    assert(rows =~= s.push(x));
    s.lemma_filter_push(x, pick);
    if i == rows.len() - 1 {
        assert forall|j: int| 0 <= j < s.len() implies pick(#[trigger] s[j]) by {
            assert(rows[j].key() != rows[i].key());
        }
        lemma_filter_all(s, pick);
        assert(rows.remove(i) =~= s);
    } else {
        assert forall|a: int, b: int|
            0 <= a < s.len() && 0 <= b < s.len() && a != b implies #[trigger] s[a].key()
            != #[trigger] s[b].key() by {
            assert(rows[a].key() != rows[b].key());
        }
        assert(s[i] == rows[i]);
        lemma_remove_is_filter(s, i);
        assert(x.key() != k) by {
            assert(rows[rows.len() - 1].key() != rows[i].key());
        }
        assert(rows.remove(i) =~= s.remove(i).push(x));
    }
}

/// The position of the row with key `id`.
pub fn find_row<T: Record>(rows: &Vec<T>, id: &String) -> (r: Option<usize>)
    ensures
        match r {
            Some(i) => i < rows@.len() && rows@[i as int].key() == id@,
            None => !has_key(rows@, id@),
        },
{
    let mut i: usize = 0;
    while i < rows.len()
        invariant
            i <= rows@.len(),
            forall|j: int| 0 <= j < i ==> #[trigger] rows@[j].key() != id@,
        decreases rows@.len() - i,
    {
        if *rows[i].id_ref() == *id {
            return Some(i);
        }
        i = i + 1;
    }
    None
}

/// Whether no two rows share a key.
pub fn keys_are_unique<T: Record>(rows: &Vec<T>) -> (r: bool)
    ensures
        r == keys_unique(rows@),
{
    let mut i: usize = 0;
    while i < rows.len()
        invariant
            i <= rows@.len(),
            forall|a: int, b: int|
                0 <= a < i && 0 <= b < rows@.len() && a != b ==> #[trigger] rows@[a].key()
                    != #[trigger] rows@[b].key(),
        decreases rows@.len() - i,
    {
        let mut j: usize = 0;
        while j < rows.len()
            invariant
                i < rows@.len(),
                j <= rows@.len(),
                forall|a: int, b: int|
                    0 <= a < i && 0 <= b < rows@.len() && a != b ==> #[trigger] rows@[a].key()
                        != #[trigger] rows@[b].key(),
                forall|b: int| 0 <= b < j && b != i ==> rows@[i as int].key() != #[trigger] rows@[b].key(),
            decreases rows@.len() - j,
        {
            if j != i && *rows[i].id_ref() == *rows[j].id_ref() {
                return false;
            }
            j = j + 1;
        }
        i = i + 1;
    }
    true
}

/// A copy of the row with key `id`.
pub fn fetch_row<T: Record>(rows: &Vec<T>, id: &String) -> (r: Option<T>)
    requires
        keys_unique(rows@),
    ensures
        r.is_some() == has_key(rows@, id@),
        r.is_some() ==> r.unwrap().same(&row_of(rows@, id@).unwrap()),
{
    match find_row(rows, id) {
        Some(i) => {
            proof {
                lemma_row_of_index(rows@, i as int);
            }
            Some(rows[i].duplicate())
        },
        None => None,
    }
}

/// `out` lists, through the positions `idx`, exactly the rows of `rows` that
/// satisfy `pick`, each once, in the table's order.
pub open spec fn lists_through<T: Ordered>(
    rows: Seq<T>,
    out: Seq<T>,
    idx: Seq<int>,
    pick: spec_fn(T) -> bool,
) -> bool {
    &&& idx.len() == out.len()
    &&& forall|i: int|
        0 <= i < idx.len() ==> {
            &&& 0 <= #[trigger] idx[i] < rows.len()
            &&& pick(rows[idx[i]])
            &&& out[i].same(&rows[idx[i]])
        }
    &&& forall|i: int, j: int| 0 <= i < j < idx.len() ==> #[trigger] idx[i] != #[trigger] idx[j]
    &&& forall|k: int| 0 <= k < rows.len() && pick(#[trigger] rows[k]) ==> idx.contains(k)
    &&& forall|i: int, j: int|
        #![trigger idx[i], idx[j]]
        0 <= i < j < idx.len() ==> !rows[idx[j]].before(&rows[idx[i]])
}

/// `out` is the listing of the rows of `rows` that satisfy `pick`.
pub open spec fn is_listing<T: Ordered>(rows: Seq<T>, out: Seq<T>, pick: spec_fn(T) -> bool) -> bool {
    exists|idx: Seq<int>| lists_through(rows, out, idx, pick)
}

/// Sorts the positions `cand` by the order of the rows they point to,
/// keeping candidates of equal rank in their given order.
fn sort_positions<T: Ordered>(rows: &Vec<T>, cand: &Vec<usize>) -> (r: Vec<usize>)
    requires
        forall|i: int| 0 <= i < cand@.len() ==> #[trigger] cand@[i] < rows@.len(),
        forall|i: int, j: int| 0 <= i < j < cand@.len() ==> #[trigger] cand@[i] != #[trigger] cand@[j],
    ensures
        r@.len() == cand@.len(),
        forall|x: usize| r@.contains(x) <==> cand@.contains(x),
        forall|i: int, j: int| 0 <= i < j < r@.len() ==> #[trigger] r@[i] != #[trigger] r@[j],
        forall|i: int, j: int|
            #![trigger r@[i], r@[j]]
            0 <= i < j < r@.len() ==> !rows@[r@[j] as int].before(&rows@[r@[i] as int]),
{
    let mut out: Vec<usize> = Vec::new();
    let mut k: usize = 0;
    while k < cand.len()
        invariant
            k <= cand@.len(),
            forall|i: int| 0 <= i < cand@.len() ==> #[trigger] cand@[i] < rows@.len(),
            forall|i: int, j: int| 0 <= i < j < cand@.len() ==> #[trigger] cand@[i] != #[trigger] cand@[j],
            out@.len() == k,
            forall|i: int| 0 <= i < out@.len() ==> #[trigger] out@[i] < rows@.len(),
            forall|x: usize| out@.contains(x) <==> cand@.subrange(0, k as int).contains(x),
            forall|i: int, j: int| 0 <= i < j < out@.len() ==> #[trigger] out@[i] != #[trigger] out@[j],
            forall|i: int, j: int|
                #![trigger out@[i], out@[j]]
                0 <= i < j < out@.len() ==> !rows@[out@[j] as int].before(&rows@[out@[i] as int]),
        decreases cand@.len() - k,
    {
        let x = cand[k];
        let mut p: usize = 0;
        while p < out.len() && !rows[x].comes_before(&rows[out[p]])
            invariant
                p <= out@.len(),
                x < rows@.len(),
                forall|i: int| 0 <= i < out@.len() ==> #[trigger] out@[i] < rows@.len(),
                forall|q: int| 0 <= q < p ==> !rows@[x as int].before(&#[trigger] rows@[out@[q] as int]),
            decreases out@.len() - p,
        {
            p = p + 1;
        }
        let ghost old_out = out@;
        out.insert(p, x);
        proof {
            let xr = rows@[x as int];
            assert(cand@.subrange(0, k + 1) =~= cand@.subrange(0, k as int).push(x));
            assert(!old_out.contains(x)) by {
                if old_out.contains(x) {
                    let j = choose|j: int| 0 <= j < k && cand@.subrange(0, k as int)[j] == x;
                    assert(cand@[j] == cand@[k as int]);
                }
            }
            let ck = cand@.subrange(0, k as int);
            let ck1 = cand@.subrange(0, k + 1);
            assert forall|y: usize| out@.contains(y) implies ck1.contains(y) by {
                let j = choose|j: int| 0 <= j < out@.len() && out@[j] == y;
                if j == p {
                    assert(ck1[k as int] == y);
                } else {
                    let oj = if j < p { j } else { j - 1 };
                    assert(old_out[oj] == y);
                    assert(old_out.contains(y));
                    let w = choose|w: int| 0 <= w < ck.len() && ck[w] == y;
                    assert(ck1[w] == y);
                }
            }
            assert forall|y: usize| ck1.contains(y) implies out@.contains(y) by {
                let w = choose|w: int| 0 <= w < ck1.len() && ck1[w] == y;
                if w == k {
                    assert(out@[p as int] == y);
                } else {
                    assert(ck[w] == y);
                    assert(ck.contains(y));
                    assert(old_out.contains(y));
                    let j = choose|j: int| 0 <= j < old_out.len() && old_out[j] == y;
                    if j < p {
                        assert(out@[j] == y);
                    } else {
                        assert(out@[j + 1] == y);
                    }
                }
            }
            assert forall|i: int, j: int| 0 <= i < j < out@.len() implies #[trigger] out@[i] != #[trigger] out@[j] by {
                if i < p && j > p {
                    assert(old_out[i] != old_out[j - 1]);
                } else if i > p {
                    assert(old_out[i - 1] != old_out[j - 1]);
                } else if j < p {
                    assert(old_out[i] != old_out[j]);
                } else if i == p {
                    assert(old_out.contains(old_out[j - 1]));
                } else {
                    assert(old_out.contains(old_out[i]));
                }
            }
            assert forall|i: int, j: int|
                #![trigger out@[i], out@[j]]
                0 <= i < j < out@.len() implies !rows@[out@[j] as int].before(&rows@[out@[i] as int]) by {
                if i != p && j != p {
                    let oi = if i < p { i } else { i - 1 };
                    let oj = if j < p { j } else { j - 1 };
                    assert(out@[i] == old_out[oi] && out@[j] == old_out[oj]);
                } else if j == p {
                    assert(out@[i] == old_out[i]);
                } else {
                    let oj = j - 1;
                    let e = rows@[old_out[oj] as int];
                    let f = rows@[old_out[p as int] as int];
                    assert(out@[j] == old_out[oj]);
                    assert(xr.before(&f));
                    if e.before(&xr) {
                        T::lemma_before_transitive(&e, &xr, &f);
                        if oj == p {
                            T::lemma_before_irreflexive(&e);
                        }
                    }
                }
            }
        }
        k = k + 1;
    }
    proof {
        assert(cand@.subrange(0, cand@.len() as int) =~= cand@);
    }
    out
}

/// Lists the rows at positions `cand`: every row that satisfies `pick` is
/// among them, and only such rows are.
pub(crate) fn list_rows<T: Ordered>(rows: &Vec<T>, cand: &Vec<usize>, Ghost(pick): Ghost<spec_fn(T) -> bool>) -> (r: Vec<T>)
    requires
        forall|i: int| 0 <= i < cand@.len() ==> #[trigger] cand@[i] < rows@.len(),
        forall|i: int, j: int| 0 <= i < j < cand@.len() ==> #[trigger] cand@[i] != #[trigger] cand@[j],
        forall|i: int| 0 <= i < cand@.len() ==> pick(#[trigger] rows@[cand@[i] as int]),
        forall|k: int|
            0 <= k < rows@.len() && pick(#[trigger] rows@[k]) ==> exists|j: int|
                0 <= j < cand@.len() && cand@[j] as int == k,
    ensures
        is_listing(rows@, r@, pick),
{
    let order = sort_positions(rows, cand);
    let mut out: Vec<T> = Vec::new();
    let mut i: usize = 0;
    while i < order.len()
        invariant
            i <= order@.len(),
            out@.len() == i,
            forall|x: usize| order@.contains(x) <==> cand@.contains(x),
            forall|j: int| 0 <= j < cand@.len() ==> #[trigger] cand@[j] < rows@.len(),
            forall|j: int| 0 <= j < i ==> (#[trigger] out@[j]).same(&rows@[order@[j] as int]),
        decreases order@.len() - i,
    {
        let pos = order[i];
        proof {
            assert(order@.contains(pos));
            let j = choose|j: int| 0 <= j < cand@.len() && cand@[j] == pos;
        }
        out.push(rows[pos].duplicate());
        i = i + 1;
    }
    let ghost idx = order@.map_values(|p: usize| p as int);
    proof {
        assert forall|i: int| 0 <= i < idx.len() implies {
            &&& 0 <= #[trigger] idx[i] < rows@.len()
            &&& pick(rows@[idx[i]])
            &&& out@[i].same(&rows@[idx[i]])
        } by {
            assert(order@.contains(order@[i]));
            let j = choose|j: int| 0 <= j < cand@.len() && cand@[j] == order@[i];
        }
        assert forall|k: int| 0 <= k < rows@.len() && pick(#[trigger] rows@[k]) implies idx.contains(k) by {
            let w = choose|w: int| 0 <= w < cand@.len() && cand@[w] as int == k;
            assert(cand@.contains(cand@[w]));
            let j = choose|j: int| 0 <= j < order@.len() && order@[j] == cand@[w];
            assert(idx[j] == k);
        }
        assert(lists_through(rows@, out@, idx, pick));
    }
    out
}

} // verus!
