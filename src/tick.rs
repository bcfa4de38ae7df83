use vstd::prelude::*;

verus! {

/// Index of the `k`-th neighbour of body `i` among `n` bodies, counting
/// cyclically from the body just after `i`.
pub open spec fn cyclic(n: int, i: int, k: int) -> int {
    (i + 1 + k) % n
}

/// Returns the index of the `k`-th neighbour of body `i` among `n` bodies:
/// `(i + 1 + k) mod n`. For three bodies, body 0 sees 1 then 2, body 1 sees
/// 2 then 0, and body 2 sees 0 then 1.
pub fn neighbour(n: usize, i: usize, k: usize) -> (r: usize)
    requires
        i < n,
        k + 1 < n,
    ensures
        r as int == cyclic(n as int, i as int, k as int),
        r < n,
        r != i,
{
    let room: usize = n - i;
    if k + 1 < room {
        assert((i + 1 + k) % (n as int) == (i + 1 + k) as int) by (nonlinear_arith)
            requires
                0 <= i + 1 + k < n,
        ;
        i + 1 + k
    } else {
        assert((i + 1 + k) % (n as int) == (i + 1 + k - n) as int) by (nonlinear_arith)
            requires
                n <= i + 1 + k < 2 * n,
        ;
        k + 1 - room
    }
}

/// The other bodies as body `i` sees them: every body but `i`, in cyclic
/// order starting just after `i`.
pub open spec fn others_of<B>(s: Seq<B>, i: int) -> Seq<B> {
    Seq::new((s.len() - 1) as nat, |k: int| s[cyclic(s.len() as int, i, k)])
}

/// Body `j` is among the neighbours of body `i` among `n` bodies.
pub open spec fn pulled_by(n: int, i: int, j: int) -> bool {
    exists|k: int| 0 <= k < n - 1 && #[trigger] cyclic(n, i, k) == j
}

/// Every body is pulled by each of the others exactly once and never by
/// itself: the neighbours of `i` are pairwise distinct, none is `i`, and
/// every body but `i` is among them.
pub proof fn lemma_neighbours_are_the_others(n: int, i: int)
    requires
        0 <= i < n,
    ensures
        forall|k: int| 0 <= k < n - 1 ==> 0 <= #[trigger] cyclic(n, i, k) < n && cyclic(n, i, k) != i,
        forall|k1: int, k2: int|
            0 <= k1 < n - 1 && 0 <= k2 < n - 1 && k1 != k2 ==> #[trigger] cyclic(n, i, k1)
                != #[trigger] cyclic(n, i, k2),
        forall|j: int| 0 <= j < n && j != i ==> #[trigger] pulled_by(n, i, j),
{
    assert forall|k: int| 0 <= k < n - 1 implies #[trigger] cyclic(n, i, k) == if i + 1 + k < n {
        i + 1 + k
    } else {
        i + 1 + k - n
    } by {
        if i + 1 + k < n {
            assert((i + 1 + k) % n == i + 1 + k) by (nonlinear_arith)
                requires
                    0 <= i + 1 + k < n,
            ;
        } else {
            assert((i + 1 + k) % n == i + 1 + k - n) by (nonlinear_arith)
                requires
                    n <= i + 1 + k < 2 * n,
            ;
        }
    }
    assert forall|j: int| 0 <= j < n && j != i implies #[trigger] pulled_by(n, i, j) by {
        let k = if j > i {
            j - i - 1
        } else {
            j + n - i - 1
        };
        assert(cyclic(n, i, k) == j);
    }
}

/// Copies out the bodies that body `i` is pulled by, in cyclic order.
pub fn others<B: Copy>(bodies: &Vec<B>, i: usize) -> (r: Vec<B>)
    requires
        i < bodies@.len(),
    ensures
        r@ == others_of(bodies@, i as int),
{
    let n = bodies.len();
    let mut r: Vec<B> = Vec::new();
    let mut k: usize = 0;
    while k + 1 < n
        invariant
            i < n,
            n == bodies@.len(),
            k < n,
            r@ == others_of(bodies@, i as int).take(k as int),
        decreases n - k,
    {
        let j = neighbour(n, i, k);
        r.push(bodies[j]);
        k = k + 1;
        assert(r@ =~= others_of(bodies@, i as int).take(k as int));
    }
    assert(r@ =~= others_of(bodies@, i as int));
    r
}

/// What one tick makes of body `i`: `update` sees the body and the others
/// as they stood before the tick, and `advance` moves what `update` gave.
pub open spec fn ticked<B, U: Fn(&B, &Vec<B>) -> B, A: Fn(&B) -> B>(
    update: U,
    advance: A,
    before: Seq<B>,
    i: int,
    after: B,
) -> bool {
    exists|o: Vec<B>, u: B|
        o@ == others_of(before, i) && #[trigger] call_ensures(update, (&before[i], &o), u)
            && #[trigger] call_ensures(advance, (&u,), after)
}

/// Advances all bodies by one tick in two phases. First every body is
/// updated (its acceleration recomputed) from a snapshot of all bodies as
/// they stand before the tick; only then is every updated body advanced.
/// No update ever reads a body that has already been advanced this tick.
pub fn tick<B: Copy, U: Fn(&B, &Vec<B>) -> B, A: Fn(&B) -> B>(
    bodies: &mut Vec<B>,
    update: U,
    advance: A,
)
    requires
        forall|b: B, o: Vec<B>|
            o@.len() + 1 == old(bodies)@.len() ==> call_requires(update, (&b, &o)),
        forall|b: B| call_requires(advance, (&b,)),
    ensures
        final(bodies)@.len() == old(bodies)@.len(),
        forall|i: int|
            0 <= i < old(bodies)@.len() ==> ticked(
                update,
                advance,
                old(bodies)@,
                i,
                #[trigger] final(bodies)@[i],
            ),
{
    let n = bodies.len();
    let ghost before = bodies@;
    let ghost mut seen: Seq<Vec<B>> = Seq::empty();
    let mut updated: Vec<B> = Vec::new();
    let mut i: usize = 0;
    while i < n
        invariant
            n == bodies@.len(),
            bodies@ == before,
            i <= n,
            updated@.len() == i,
            seen.len() == i,
            forall|b: B, o: Vec<B>| o@.len() + 1 == n ==> call_requires(update, (&b, &o)),
            forall|j: int|
                0 <= j < i ==> (#[trigger] seen[j])@ == others_of(before, j) && call_ensures(
                    update,
                    (&before[j], &seen[j]),
                    updated@[j],
                ),
        decreases n - i,
    {
        let o = others(bodies, i);
        let u = update(&bodies[i], &o);
        proof {
            seen = seen.push(o);
        }
        updated.push(u);
        i = i + 1;
    }
    let mut i: usize = 0;
    while i < n
        invariant
            n == bodies@.len(),
            n == updated@.len(),
            n == seen.len(),
            i <= n,
            forall|j: int| i <= j < n ==> bodies@[j] == before[j],
            forall|b: B| call_requires(advance, (&b,)),
            forall|j: int|
                0 <= j < n ==> (#[trigger] seen[j])@ == others_of(before, j) && call_ensures(
                    update,
                    (&before[j], &seen[j]),
                    updated@[j],
                ),
            forall|j: int|
                0 <= j < i ==> call_ensures(advance, (&updated@[j],), #[trigger] bodies@[j]),
        decreases n - i,
    {
        let a = advance(&updated[i]);
        bodies.set(i, a);
        i = i + 1;
    }
    assert forall|j: int| 0 <= j < n implies ticked(update, advance, before, j, #[trigger] bodies@[j]) by {
        let o = seen[j];
        assert(o@ == others_of(before, j));
        assert(call_ensures(update, (&before[j], &o), updated@[j]));
        assert(call_ensures(advance, (&updated@[j],), bodies@[j]));
    }
}

} // verus!
