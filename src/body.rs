use vstd::prelude::*;

verus! {

/// `r` is `base` advanced by `rate` over `dt`: some `d` that `scale` gives
/// for `(rate, dt)`, added to `base`.
pub open spec fn advanced<V, S, Ad: Fn(&V, &V) -> V, Sc: Fn(&V, S) -> V>(
    plus: Ad,
    scale: Sc,
    base: V,
    rate: V,
    dt: S,
    r: V,
) -> bool {
    exists|d: V| #[trigger] call_ensures(scale, (&rate, dt), d) && call_ensures(plus, (&base, &d), r)
}

/// One explicit Euler step, over any vector type whose sum and scaling are
/// given as `plus` and `scale`. Returns the new position and the new
/// velocity: the position moves by the velocity from before the step, and
/// the velocity by the current acceleration.
pub fn euler_step<V, S: Copy, Ad: Fn(&V, &V) -> V, Sc: Fn(&V, S) -> V>(
    position: &V,
    velocity: &V,
    acceleration: &V,
    dt: S,
    plus: Ad,
    scale: Sc,
) -> (r: (V, V))
    requires
        forall|a: V, b: V| call_requires(plus, (&a, &b)),
        forall|v: V| call_requires(scale, (&v, dt)),
    ensures
        advanced(plus, scale, *position, *velocity, dt, r.0),
        advanced(plus, scale, *velocity, *acceleration, dt, r.1),
{
    let dp = scale(velocity, dt);
    let p = plus(position, &dp);
    let dv = scale(acceleration, dt);
    let v = plus(velocity, &dv);
    (p, v)
}

/// `sums` is the running total of the pulls that `body` feels from each of
/// `others` in turn: the first pull alone, then each partial sum plus the
/// next pull.
pub open spec fn pull_sums<B, V, P: Fn(&B, &B) -> V, Ad: Fn(&V, &V) -> V>(
    pull: P,
    plus: Ad,
    body: B,
    others: Seq<B>,
    pulls: Seq<V>,
    sums: Seq<V>,
) -> bool {
    &&& pulls.len() == others.len()
    &&& sums.len() == others.len()
    &&& forall|k: int| 0 <= k < others.len() ==> call_ensures(pull, (&body, &others[k]), #[trigger] pulls[k])
    &&& sums.len() > 0 ==> sums[0] == pulls[0]
    &&& forall|k: int| 0 < k < others.len() ==> call_ensures(plus, (&sums[k - 1], &pulls[k]), #[trigger] sums[k])
}

/// The acceleration of `body`: the pulls of all `others` summed, in their
/// order, starting from the first pull.
pub fn superpose<B, V, P: Fn(&B, &B) -> V, Ad: Fn(&V, &V) -> V>(
    body: &B,
    others: &Vec<B>,
    pull: P,
    plus: Ad,
) -> (r: V)
    requires
        others@.len() > 0,
        forall|o: B| call_requires(pull, (body, &o)),
        forall|a: V, b: V| call_requires(plus, (&a, &b)),
    ensures
        exists|pulls: Seq<V>, sums: Seq<V>|
            #[trigger] pull_sums(pull, plus, *body, others@, pulls, sums) && r == sums.last(),
{
    let n = others.len();
    let mut acc = pull(body, &others[0]);
    let ghost mut pulls: Seq<V> = seq![acc];
    let ghost mut sums: Seq<V> = seq![acc];
    let mut k: usize = 1;
    while k < n
        invariant
            n == others@.len(),
            1 <= k <= n,
            forall|o: B| call_requires(pull, (body, &o)),
            forall|a: V, b: V| call_requires(plus, (&a, &b)),
            pull_sums(pull, plus, *body, others@.take(k as int), pulls, sums),
            acc == sums.last(),
        decreases n - k,
    {
        let p = pull(body, &others[k]);
        let next = plus(&acc, &p);
        proof {
            pulls = pulls.push(p);
            sums = sums.push(next);
            assert(others@.take(k + 1) =~= others@.take(k as int).push(others@[k as int]));
        }
        acc = next;
        k = k + 1;
    }
    assert(others@.take(n as int) =~= others@);
    acc
}

} // verus!
