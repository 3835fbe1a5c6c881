//! One singly linked list of particle indices per cell, threaded through two
//! flat arrays: `head[c]` is the first particle of cell `c` and `next[i]` the
//! particle that follows `i` in its cell. Both end in `SENTINEL`.
use vstd::prelude::*;

verus! {

/// Marks an empty cell in `head` and the end of a chain in `next`.
pub const SENTINEL: usize = usize::MAX;

/// Every entry of `head` is the sentinel or a particle slot, and every link of
/// `next` is the sentinel or points to an earlier particle.
pub open spec fn links_ok(head: Seq<usize>, next: Seq<usize>) -> bool {
    &&& forall|c: int| 0 <= c < head.len() ==> #[trigger] head[c] == SENTINEL || head[c] < next.len()
    &&& forall|i: int| 0 <= i < next.len() ==> #[trigger] next[i] == SENTINEL || next[i] < i
}

/// The particles met on a walk that starts at `p` and follows `next` up to
/// the sentinel. A link that does not point to an earlier particle ends the
/// walk; under `links_ok` the only such link is the sentinel.
pub open spec fn chain(next: Seq<usize>, p: usize) -> Seq<usize>
    decreases p,
{
    if p >= next.len() {
        Seq::empty()
    } else if next[p as int] < p {
        seq![p] + chain(next, next[p as int])
    } else {
        seq![p]
    }
}

/// The particles listed in cell `c`, first to last; nothing for an index
/// outside the grid.
pub open spec fn cell_contents(head: Seq<usize>, next: Seq<usize>, c: int) -> Seq<usize> {
    if 0 <= c < head.len() {
        chain(next, head[c])
    } else {
        Seq::empty()
    }
}

/// The contents of the given cells, one after the other, in the given order.
pub open spec fn gather(head: Seq<usize>, next: Seq<usize>, cells: Seq<int>) -> Seq<usize>
    decreases cells.len(),
{
    if cells.len() == 0 {
        Seq::empty()
    } else {
        gather(head, next, cells.drop_last()) + cell_contents(head, next, cells.last())
    }
}

/// The latest of the first `k` particles that lies in cell `c`, or the
/// sentinel if none does. `cells[i]` is the cell of particle `i`, if any.
pub open spec fn last_in_cell(cells: Seq<Option<int>>, c: int, k: nat) -> usize
    decreases k,
{
    if k == 0 {
        SENTINEL
    } else if cells[k - 1] == Some(c) {
        (k - 1) as usize
    } else {
        last_in_cell(cells, c, (k - 1) as nat)
    }
}

/// `head` once the first `k` particles are pushed into their cells.
pub open spec fn head_after(cells: Seq<Option<int>>, k: nat, n_cells: nat) -> Seq<usize> {
    Seq::new(n_cells, |c: int| last_in_cell(cells, c, k))
}

/// `next` once the first `k` particles are pushed into their cells.
pub open spec fn next_after(cells: Seq<Option<int>>, k: nat, n_slots: nat) -> Seq<usize> {
    Seq::new(
        n_slots,
        |i: int|
            if i < k && cells[i] is Some {
                last_in_cell(cells, cells[i]->0, i as nat)
            } else {
                SENTINEL
            },
    )
}

/// The particles `j < k` with `cells[j] == Some(c)`, latest first.
pub open spec fn members(cells: Seq<Option<int>>, c: int, k: nat) -> Seq<usize>
    decreases k,
{
    if k == 0 {
        Seq::empty()
    } else if cells[k - 1] == Some(c) {
        seq![(k - 1) as usize] + members(cells, c, (k - 1) as nat)
    } else {
        members(cells, c, (k - 1) as nat)
    }
}

pub proof fn lemma_last_in_cell_bound(cells: Seq<Option<int>>, c: int, k: nat)
    requires
        k <= usize::MAX,
    ensures
        last_in_cell(cells, c, k) == SENTINEL || last_in_cell(cells, c, k) < k,
    decreases k,
{
    if k > 0 {
        lemma_last_in_cell_bound(cells, c, (k - 1) as nat);
    }
}

/// Pushing every particle into its cell leaves well-formed links.
pub proof fn lemma_rebuilt_links_ok(cells: Seq<Option<int>>, n_cells: nat, n_slots: nat)
    requires
        cells.len() <= n_slots <= usize::MAX,
    ensures
        links_ok(head_after(cells, cells.len(), n_cells), next_after(cells, cells.len(), n_slots)),
{
    let head = head_after(cells, cells.len(), n_cells);
    let next = next_after(cells, cells.len(), n_slots);
    assert forall|c: int| 0 <= c < head.len() implies #[trigger] head[c] == SENTINEL || head[c]
        < next.len() by {
        lemma_last_in_cell_bound(cells, c, cells.len());
    }
    assert forall|i: int| 0 <= i < next.len() implies #[trigger] next[i] == SENTINEL || next[i]
        < i by {
        if i < cells.len() && cells[i] is Some {
            lemma_last_in_cell_bound(cells, cells[i]->0, i as nat);
        }
    }
}

/// After the first `k` particles are pushed, the chain from the last of them
/// in cell `c` lists exactly that cell's members.
pub proof fn lemma_chain_is_members(cells: Seq<Option<int>>, n_slots: nat, c: int, k: nat)
    requires
        k <= cells.len() <= n_slots <= usize::MAX,
    ensures
        chain(next_after(cells, cells.len(), n_slots), last_in_cell(cells, c, k)) == members(
            cells,
            c,
            k,
        ),
    decreases k,
{
    let next = next_after(cells, cells.len(), n_slots);
    if k > 0 {
        lemma_chain_is_members(cells, n_slots, c, (k - 1) as nat);
        if cells[k - 1] == Some(c) {
            let p = (k - 1) as usize;
            lemma_last_in_cell_bound(cells, c, (k - 1) as nat);
            assert(next[p as int] == last_in_cell(cells, c, (k - 1) as nat));
            if next[p as int] == SENTINEL {
                assert(members(cells, c, (k - 1) as nat) =~= Seq::empty());
                assert(chain(next, p) =~= seq![p] + members(cells, c, (k - 1) as nat));
            }
        }
    }
}

/// A particle is a member of cell `c` exactly when it was pushed there.
pub proof fn lemma_members_contains(cells: Seq<Option<int>>, c: int, k: nat, j: int)
    requires
        k <= cells.len(),
        k <= usize::MAX,
    ensures
        members(cells, c, k).contains(j as usize) && 0 <= j <= usize::MAX <==> 0 <= j < k
            && cells[j] == Some(c),
    decreases k,
{
    if k > 0 {
        lemma_members_contains(cells, c, (k - 1) as nat, j);
        let rest = members(cells, c, (k - 1) as nat);
        if cells[k - 1] == Some(c) {
            let m = seq![(k - 1) as usize] + rest;
            assert(m[0] == (k - 1) as usize);
            if 0 <= j <= usize::MAX && m.contains(j as usize) {
                let w = choose|w: int| 0 <= w < m.len() && m[w] == j as usize;
                if w > 0 {
                    assert(rest[w - 1] == j as usize);
                }
            }
            if 0 <= j < k - 1 && cells[j] == Some(c) {
                let w = choose|w: int| 0 <= w < rest.len() && rest[w] == j as usize;
                assert(m[w + 1] == j as usize);
            }
        }
    }
}

/// A fresh array of `n` sentinels.
pub fn empty_slots(n: usize) -> (v: Vec<usize>)
    ensures
        v@ == Seq::new(n as nat, |i: int| SENTINEL),
{
    let mut v: Vec<usize> = Vec::with_capacity(n);
    let mut i: usize = 0;
    while i < n
        invariant
            i <= n,
            v@ == Seq::new(i as nat, |j: int| SENTINEL),
        decreases n - i,
    {
        v.push(SENTINEL);
        i = i + 1;
        assert(v@ =~= Seq::new(i as nat, |j: int| SENTINEL));
    }
    v
}

/// Sets every entry of `v` to the sentinel.
pub fn clear(v: &mut Vec<usize>)
    ensures
        final(v)@ == Seq::new(old(v)@.len(), |i: int| SENTINEL),
{
    let n = v.len();
    let mut i: usize = 0;
    while i < n
        invariant
            v@.len() == n,
            i <= n,
            forall|j: int| 0 <= j < i ==> v@[j] == SENTINEL,
        decreases n - i,
    {
        v.set(i, SENTINEL);
        i = i + 1;
    }
    assert(v@ =~= Seq::new(n as nat, |i: int| SENTINEL));
}

/// Puts particle `i` at the front of the chain of cell `c`.
pub fn push_front(head: &mut Vec<usize>, next: &mut Vec<usize>, i: usize, c: usize)
    requires
        i < old(next)@.len(),
        c < old(head)@.len(),
    ensures
        final(next)@ == old(next)@.update(i as int, old(head)@[c as int]),
        final(head)@ == old(head)@.update(c as int, i),
{
    let first = head[c];
    next.set(i, first);
    head.set(c, i);
}

/// Appends the contents of cell `c` to `out`.
pub fn append_cell(head: &Vec<usize>, next: &Vec<usize>, c: i128, out: &mut Vec<usize>)
    requires
        links_ok(head@, next@),
    ensures
        final(out)@ == old(out)@ + cell_contents(head@, next@, c as int),
{
    let ghost start = out@;
    if 0 <= c && c < head.len() as i128 {
        let n_slots = next.len();
        let mut p = head[c as usize];
        while p != SENTINEL
            invariant
                links_ok(head@, next@),
                n_slots == next@.len(),
                p == SENTINEL || p < next@.len(),
                start + cell_contents(head@, next@, c as int) == out@ + chain(next@, p),
            decreases
                if p == SENTINEL {
                    0
                } else {
                    p + 1
                },
        {
            let ghost before = out@;
            let q = next[p];
            assert(q == SENTINEL ==> chain(next@, q) =~= Seq::empty());
            assert(chain(next@, p) =~= seq![p] + chain(next@, q));
            out.push(p);
            assert(before + chain(next@, p) =~= out@ + chain(next@, q));
            p = q;
        }
        assert(chain(next@, p) =~= Seq::empty());
        assert(out@ =~= out@ + chain(next@, p));
    } else {
        assert(out@ =~= start + cell_contents(head@, next@, c as int));
    }
}

/// The contents of the given cells, one after the other.
pub fn gather_cells(head: &Vec<usize>, next: &Vec<usize>, cells: &Vec<i128>) -> (out: Vec<usize>)
    requires
        links_ok(head@, next@),
    ensures
        out@ == gather(head@, next@, cells@.map_values(|c: i128| c as int)),
{
    let ghost all = cells@.map_values(|c: i128| c as int);
    let mut out: Vec<usize> = Vec::new();
    let mut k: usize = 0;
    while k < cells.len()
        invariant
            links_ok(head@, next@),
            k <= cells@.len(),
            all == cells@.map_values(|c: i128| c as int),
            out@ == gather(head@, next@, all.take(k as int)),
        decreases cells@.len() - k,
    {
        append_cell(head, next, cells[k], &mut out);
        assert(all.take(k + 1).drop_last() =~= all.take(k as int));
        k = k + 1;
    }
    assert(all.take(k as int) =~= all);
    out
}

} // verus!
