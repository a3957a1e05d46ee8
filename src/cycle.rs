use crate::value::{Value, Variable};
use vstd::prelude::*;

verus! {

/// Variable `i` refers to variable `j`.
pub open spec fn edge(vars: Seq<Variable>, i: int, j: int) -> bool {
    &&& 0 <= i < vars.len()
    &&& 0 <= j < vars.len()
    &&& refers(vars[i], j as nat)
}

/// The value of `var` holds the handle `j`.
pub open spec fn refers(var: Variable, j: nat) -> bool {
    match var.value {
        Some(v) => v.handles().contains(j),
        None => false,
    }
}

/// The position after `k` on a cycle of length `n`.
pub open spec fn next_on(k: int, n: int) -> int {
    if k + 1 < n {
        k + 1
    } else {
        0
    }
}

/// `c` lists distinct variables, each referring to the next and the last to
/// the first.
pub open spec fn is_cycle(vars: Seq<Variable>, c: Seq<int>) -> bool {
    &&& c.len() > 0
    &&& c.no_duplicates()
    &&& forall|k: int| 0 <= k < c.len() ==> edge(vars, #[trigger] c[k], c[next_on(k, c.len() as int)])
}

pub open spec fn acyclic(vars: Seq<Variable>) -> bool {
    forall|c: Seq<int>| !is_cycle(vars, c)
}

pub open spec fn ranked(vars: Seq<Variable>, rank: Seq<int>) -> bool {
    &&& rank.len() == vars.len()
    &&& forall|i: int, j: int| #[trigger] edge(vars, i, j) ==> rank[j] < rank[i]
}

proof fn lemma_rank_descends(vars: Seq<Variable>, rank: Seq<int>, c: Seq<int>, k: int)
    requires
        ranked(vars, rank),
        is_cycle(vars, c),
        0 <= k < c.len(),
    ensures
        rank[c[k]] + k <= rank[c[0]],
    decreases k,
{
    if k > 0 {
        lemma_rank_descends(vars, rank, c, k - 1);
        assert(next_on(k - 1, c.len() as int) == k);
        assert(edge(vars, c[k - 1], c[k]));
    }
}

/// A table whose references all go down a ranking has no cycle.
proof fn lemma_ranked_acyclic(vars: Seq<Variable>, rank: Seq<int>)
    requires
        ranked(vars, rank),
    ensures
        acyclic(vars),
{
    assert forall|c: Seq<int>| !is_cycle(vars, c) by {
        if is_cycle(vars, c) {
            let n = c.len() as int;
            lemma_rank_descends(vars, rank, c, n - 1);
            assert(edge(vars, c[n - 1], c[next_on(n - 1, n)]));
        }
    }
}

/// The number of entries that hold.
pub open spec fn trues(s: Seq<bool>) -> nat
    decreases s.len(),
{
    if s.len() == 0 {
        0
    } else {
        trues(s.drop_last()) + if s.last() {
            1nat
        } else {
            0nat
        }
    }
}

proof fn lemma_trues_bound(s: Seq<bool>)
    ensures
        trues(s) <= s.len(),
    decreases s.len(),
{
    if s.len() > 0 {
        lemma_trues_bound(s.drop_last());
    }
}

proof fn lemma_trues_set(s: Seq<bool>, i: int)
    requires
        0 <= i < s.len(),
        !s[i],
    ensures
        trues(s.update(i, true)) == trues(s) + 1,
    decreases s.len(),
{
    let t = s.update(i, true);
    if i == s.len() - 1 {
        assert(t.drop_last() =~= s.drop_last());
    } else {
        assert(t.drop_last() =~= s.drop_last().update(i, true));
        lemma_trues_set(s.drop_last(), i);
    }
}

/// A handle of `v` whose variable is not done yet.
fn pending_handle(v: &Value, done: &Vec<bool>) -> (r: Option<usize>)
    ensures
        r matches Some(j) ==> v.handles().contains(j as nat) && j < done@.len() && !done@[j as int],
        r is None ==> forall|j: nat| #[trigger]
            v.handles().contains(j) && j < done@.len() ==> done@[j as int],
    decreases v,
{
    match v {
        Value::Variable(h) => {
            let hh = *h;
            if hh < done.len() && !done[hh] {
                Some(hh)
            } else {
                proof {
                    assert forall|j: nat| #[trigger]
                        v.handles().contains(j) && j < done@.len() implies done@[j as int] by {
                        assert(v.handles() == set![hh as nat]);
                        assert(j == hh as nat);
                    }
                }
                None
            }
        },
        Value::Expr(e) => {
            match pending_handle(&e.lhs, done) {
                Some(j) => Some(j),
                None => match &e.rhs {
                    Some(x) => {
                        let r = pending_handle(x, done);
                        proof {
                            if r is None {
                                assert forall|j: nat| #[trigger]
                                    v.handles().contains(j) && j < done@.len() implies done@[j as int] by {
                                    assert(v.handles() == e.lhs.handles() + x.handles());
                                    if e.lhs.handles().contains(j) {
                                    } else {
                                        assert(x.handles().contains(j));
                                    }
                                }
                            }
                        }
                        r
                    },
                    None => {
                        assert(v.handles() == e.lhs.handles());
                        None
                    },
                },
            }
        },
        _ => {
            assert(v.handles() =~= Set::empty());
            None
        },
    }
}

fn pending_of(var: &Variable, done: &Vec<bool>) -> (r: Option<usize>)
    ensures
        r matches Some(j) ==> refers(*var, j as nat) && j < done@.len() && !done@[j as int],
        r is None ==> forall|j: nat| #[trigger] refers(*var, j) && j < done@.len() ==> done@[j as int],
{
    match &var.value {
        Some(v) => pending_handle(v, done),
        None => None,
    }
}

/// Finds a cycle of references, or shows that there is none.
pub fn find_cycle(vars: &Vec<Variable>) -> (r: Option<Vec<usize>>)
    ensures
        r is None ==> acyclic(vars@),
        r matches Some(c) ==> is_cycle(vars@, c@.map_values(|x: usize| x as int)),
{
    let n = vars.len();
    let mut done: Vec<bool> = Vec::new();
    while done.len() < n
        invariant
            done@.len() <= n,
            forall|j: int| 0 <= j < done@.len() ==> !done@[j],
        decreases n - done@.len(),
    {
        done.push(false);
    }
    proof {
        assert(forall|j: int| 0 <= j < done@.len() ==> !done@[j]);
        lemma_trues_zero(done@);
    }
    let ghost mut rank: Seq<int> = Seq::new(n as nat, |i: int| 0);
    let mut count: usize = 0;
    let mut changed = true;
    while changed
        invariant
            n == vars@.len(),
            done@.len() == n,
            rank.len() == n,
            count == trues(done@),
            count <= n,
            forall|a: int, b: int|
                0 <= a < n && done@[a] && #[trigger] edge(vars@, a, b) ==> done@[b] && rank[b]
                    < rank[a],
            forall|a: int| 0 <= a < n && #[trigger] done@[a] ==> rank[a] < count,
            !changed ==> forall|a: int|
                0 <= a < n && !done@[a] ==> exists|b: int| #[trigger]
                    edge(vars@, a, b) && !done@[b],
        decreases n - count + if changed {
            1int
        } else {
            0int
        },
    {
        changed = false;
        let ghost count0 = count;
        let mut i: usize = 0;
        while i < n
            invariant
                n == vars@.len(),
                done@.len() == n,
                rank.len() == n,
                count == trues(done@),
                count <= n,
                count0 <= count,
                changed ==> count0 < count,
                i <= n,
                forall|a: int, b: int|
                    0 <= a < n && done@[a] && #[trigger] edge(vars@, a, b) ==> done@[b] && rank[b]
                        < rank[a],
                forall|a: int| 0 <= a < n && #[trigger] done@[a] ==> rank[a] < count,
                !changed ==> forall|a: int|
                    0 <= a < i && !done@[a] ==> exists|b: int| #[trigger]
                        edge(vars@, a, b) && !done@[b],
            decreases n - i,
        {
            if !done[i] {
                match pending_of(&vars[i], &done) {
                    Some(j) => {
                        assert(edge(vars@, i as int, j as int));
                    },
                    None => {
                        proof {
                            lemma_trues_set(done@, i as int);
                            lemma_trues_bound(done@.update(i as int, true));
                            rank = rank.update(i as int, count as int);
                        }
                        done.set(i, true);
                        count = count + 1;
                        changed = true;
                    },
                }
            }
            i = i + 1;
        }
    }
    // Every variable that is not done refers to one that is not done.
    let mut s: usize = 0;
    while s < n && done[s]
        invariant
            n == vars@.len(),
            done@.len() == n,
            s <= n,
            forall|a: int| 0 <= a < s ==> done@[a],
        decreases n - s,
    {
        s = s + 1;
    }
    if s == n {
        proof {
            assert forall|i: int, j: int| #[trigger] edge(vars@, i, j) implies rank[j] < rank[i] by {
                assert(done@[i]);
            }
            lemma_ranked_acyclic(vars@, rank);
        }
        return None;
    }
    Some(walk(vars, &done, s))
}

/// Follows references from `s` through variables that are not done until
/// one comes back: each variable not done refers to one not done.
#[verifier::rlimit(40)]
fn walk(vars: &Vec<Variable>, done: &Vec<bool>, s: usize) -> (r: Vec<usize>)
    requires
        done@.len() == vars@.len(),
        s < vars@.len(),
        !done@[s as int],
        forall|a: int|
            0 <= a < vars@.len() && !done@[a] ==> exists|b: int| #[trigger]
                edge(vars@, a, b) && !done@[b],
    ensures
        is_cycle(vars@, r@.map_values(|x: usize| x as int)),
{
    let n = vars.len();
    let mut on_path: Vec<bool> = Vec::new();
    while on_path.len() < n
        invariant
            on_path@.len() <= n,
            forall|j: int| 0 <= j < on_path@.len() ==> !on_path@[j],
        decreases n - on_path@.len(),
    {
        on_path.push(false);
    }
    proof {
        lemma_trues_zero(on_path@);
    }
    let mut path: Vec<usize> = Vec::new();
    let mut cur: usize = s;
    loop
        invariant
            n == vars@.len(),
            done@.len() == n,
            on_path@.len() == n,
            cur < n,
            !done@[cur as int],
            path@.len() == trues(on_path@),
            forall|a: int|
                0 <= a < n && !done@[a] ==> exists|b: int| #[trigger]
                    edge(vars@, a, b) && !done@[b],
            forall|k: int| 0 <= k < path@.len() ==> (#[trigger] path@[k]) < n && on_path@[path@[k] as int],
            forall|j: int| 0 <= j < n && on_path@[j] ==> exists|k: int| 0 <= k < path@.len() && #[trigger] path@[k] == j,
            forall|k: int, m: int| 0 <= k < m < path@.len() ==> path@[k] != path@[m],
            forall|k: int| 0 <= k < path@.len() - 1 ==> edge(vars@, #[trigger] path@[k] as int, path@[k + 1] as int),
            path@.len() > 0 ==> edge(vars@, path@.last() as int, cur as int),
        decreases n - path@.len(),
    {
        if on_path[cur] {
            proof {
                lemma_trues_bound(on_path@);
            }
            let mut p: usize = 0;
            while path[p] != cur
                invariant
                    p < path@.len(),
                    path@.len() <= n,
                    exists|k: int| p <= k < path@.len() && #[trigger] path@[k] == cur,
                decreases path@.len() - p,
            {
                p = p + 1;
            }
            let mut c: Vec<usize> = Vec::new();
            let mut k: usize = p;
            while k < path.len()
                invariant
                    p <= k <= path@.len(),
                    c@ == path@.subrange(p as int, k as int),
                decreases path@.len() - k,
            {
                c.push(path[k]);
                k = k + 1;
                assert(c@ =~= path@.subrange(p as int, k as int));
            }
            proof {
                let cs = c@.map_values(|x: usize| x as int);
                let len = cs.len() as int;
                assert forall|a: int, b: int| 0 <= a < len && 0 <= b < len && a != b implies cs[a] != cs[b] by {
                    if a < b {
                        assert(path@[p + a] != path@[p + b]);
                    } else {
                        assert(path@[p + b] != path@[p + a]);
                    }
                }
                assert forall|a: int| 0 <= a < len implies edge(vars@, #[trigger] cs[a], cs[next_on(a, len)]) by {
                    if a + 1 < len {
                        assert(edge(vars@, path@[p + a] as int, path@[p + a + 1] as int));
                    } else {
                        assert(path@.last() == path@[p + a]);
                    }
                }
            }
            return c;
        }
        let next = pending_of(&vars[cur], &done);
        let ghost old_path = path@;
        let ghost old_on = on_path@;
        proof {
            lemma_trues_set(on_path@, cur as int);
            lemma_trues_bound(on_path@.update(cur as int, true));
            if next is None {
                let b = choose|b: int| #[trigger] edge(vars@, cur as int, b) && !done@[b];
                assert(refers(vars@[cur as int], b as nat));
            }
        }
        on_path.set(cur, true);
        path.push(cur);
        proof {
            assert forall|j: int| 0 <= j < n && on_path@[j] implies exists|k: int| 0 <= k < path@.len() && #[trigger] path@[k] == j by {
                if j == cur {
                    assert(path@[path@.len() - 1] == j);
                } else {
                    assert(old_on[j]);
                    let k = choose|k: int| 0 <= k < old_path.len() && #[trigger] old_path[k] == j;
                    assert(path@[k] == j);
                }
            }
            assert forall|k: int, m: int| 0 <= k < m < path@.len() implies path@[k] != path@[m] by {
                if m == path@.len() - 1 {
                    assert(on_path@[old_path[k] as int]);
                    assert(old_on[old_path[k] as int]);
                }
            }
        }
        cur = next.unwrap();
        assert(edge(vars@, path@.last() as int, cur as int));
    }
}

proof fn lemma_trues_zero(s: Seq<bool>)
    requires
        forall|j: int| 0 <= j < s.len() ==> !s[j],
    ensures
        trues(s) == 0,
    decreases s.len(),
{
    if s.len() > 0 {
        lemma_trues_zero(s.drop_last());
    }
}

} // verus!
