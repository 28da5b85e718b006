//! The application capability.
use vstd::prelude::*;
use crate::generic::{option_items, Container, Generic1};
use crate::functor::{accepts_all, map_slice, to_rebound, Functor};

verus! {

/// Every function of `fs` may be called on every element of `c`.
pub open spec fn applicable<T, U, F: Fn(T) -> U>(fs: Seq<F>, c: Seq<T>) -> bool {
    forall|i: int, j: int|
        0 <= i < fs.len() && 0 <= j < c.len() ==> call_requires(#[trigger] fs[i], (#[trigger] c[j],))
}

/// `r` is a result of applying the functions `fs` to the elements `c`,
/// function by function: the run of the function at index `i` starts at
/// `i * c.len()` and holds, at offset `j`, an output of that function on the
/// element of `c` at index `j`.
pub open spec fn applied<T, U, F: Fn(T) -> U>(c: Seq<T>, fs: Seq<F>, r: Seq<U>) -> bool {
    &&& r.len() == fs.len() * c.len()
    &&& forall|i: int, j: int|
        0 <= i < fs.len() && 0 <= j < c.len() ==> call_ensures(
            #[trigger] fs[i],
            (#[trigger] c[j],),
            r[i * c.len() + j],
        )
}

/// `f` may be called on every pair of an element of `a` and one of `b`.
pub open spec fn combinable<A, B, C, F: Fn(A, B) -> C>(f: F, a: Seq<A>, b: Seq<B>) -> bool {
    forall|i: int, j: int|
        0 <= i < a.len() && 0 <= j < b.len() ==> call_requires(f, (#[trigger] a[i], #[trigger] b[j]))
}

/// `r` is a result of combining every element of `a` with every element of
/// `b` through `f`, the elements of `a` outermost: the entry at
/// `i * b.len() + j` is an output of `f` on `a[i]` and `b[j]`.
pub open spec fn lifted<A, B, C, F: Fn(A, B) -> C>(a: Seq<A>, f: F, b: Seq<B>, r: Seq<C>) -> bool {
    &&& r.len() == a.len() * b.len()
    &&& forall|i: int, j: int|
        0 <= i < a.len() && 0 <= j < b.len() ==> call_ensures(
            f,
            (#[trigger] a[i], #[trigger] b[j]),
            r[i * b.len() + j],
        )
}

/// Combination of a container of `T` with a second container, holding `X`,
/// into one holding `U`. The second container holds either functions from
/// `T` to `U` or values that a binary function joins with the elements of
/// the first. It may be of any shape that rebinds as this one does: any
/// sequence shape goes with a sequence shape, an `Option` with an `Option`.
///
/// The sequence shapes ask that `T` and `X` be `Copy`, as every element
/// meets several partners; an `Option` asks for nothing.
pub trait Applicative<'r, T: 'r, X: 'r, U: 'r>: Functor<'r, T, U> + Generic1<'r, T, X> {
    /// Applies every function of `fs`, in order, to every element, in order,
    /// and concatenates the runs of results.
    fn apply<FAB>(self, fs: FAB) -> (r: <Self as Generic1<'r, T, U>>::Rebind)
        where
            X: Fn(T) -> U,
            FAB: Functor<'r, X, X, Rebind = <Self as Generic1<'r, T, X>>::Rebind>,
        requires
            applicable(fs.items(), self.items()),
        ensures
            applied(self.items(), fs.items(), r.items()),
    ;

    /// Combines every element with every element of `fb` through `f`, the
    /// elements of `self` outermost.
    fn lift_a2<ABC, FB>(self, f: ABC, fb: FB) -> (r: <Self as Generic1<'r, T, U>>::Rebind)
        where
            ABC: Fn(T, X) -> U,
            FB: Functor<'r, X, X, Rebind = <Self as Generic1<'r, T, X>>::Rebind>,
        requires
            combinable(f, self.items(), fb.items()),
        ensures
            lifted(self.items(), f, fb.items(), r.items()),
    ;
}

/// Where a cell of a table with rows of length `m` lies among the first `n`
/// rows laid end to end.
pub proof fn lemma_cell_in_rows(i: int, j: int, n: int, m: int)
    requires
        0 <= i < n,
        0 <= j < m,
    ensures
        0 <= i * m + j < n * m,
{
    assert(i * m >= 0) by (nonlinear_arith)
        requires
            i >= 0,
            m >= 0,
    ;
    assert((i + 1) * m == i * m + m) by (nonlinear_arith);
    assert((i + 1) * m <= n * m) by (nonlinear_arith)
        requires
            i + 1 <= n,
            m >= 0,
    ;
}

/// Applies each function of `fs` in turn to all of `c`.
pub fn apply_slice<T: Copy, U, F: Fn(T) -> U>(c: &[T], fs: &[F]) -> (r: Vec<U>)
    requires
        applicable(fs@, c@),
    ensures
        applied(c@, fs@, r@),
{
    let ghost m = c@.len() as int;
    let mut r: Vec<U> = Vec::new();
    let mut i: usize = 0;
    while i < fs.len()
        invariant
            i <= fs.len(),
            m == c@.len(),
            applicable(fs@, c@),
            r@.len() == i * m,
            forall|p: int, q: int|
                0 <= p < i && 0 <= q < m ==> call_ensures(
                    #[trigger] fs@[p],
                    (#[trigger] c@[q],),
                    r@[p * m + q],
                ),
        decreases fs.len() - i,
    {
        let f = &fs[i];
        assert(accepts_all(*f, c@)) by {
            assert(f == fs@[i as int]);
        }
        let mut run = map_slice(c, f);
        let ghost before = r@;
        let ghost row = run@;
        r.append(&mut run);
        proof {
            assert((i + 1) * m == i * m + m) by (nonlinear_arith);
            assert forall|p: int, q: int| 0 <= p < i + 1 && 0 <= q < m implies call_ensures(
                #[trigger] fs@[p],
                (#[trigger] c@[q],),
                r@[p * m + q],
            ) by {
                if p < i {
                    lemma_cell_in_rows(p, q, i as int, m);
                    assert(r@[p * m + q] == before[p * m + q]);
                } else {
                    assert(r@[i * m + q] == row[q]);
                }
            }
        }
        i += 1;
    }
    r
}

/// Combines `x` with each element of `b` in turn.
pub fn pair_slice<A: Copy, B: Copy, C, F: Fn(A, B) -> C>(x: A, f: &F, b: &[B]) -> (r: Vec<C>)
    requires
        forall|j: int| 0 <= j < b@.len() ==> call_requires(*f, (x, #[trigger] b@[j])),
    ensures
        r@.len() == b@.len(),
        forall|j: int| 0 <= j < b@.len() ==> call_ensures(*f, (x, b@[j]), #[trigger] r@[j]),
{
    let mut r: Vec<C> = Vec::new();
    let mut j: usize = 0;
    while j < b.len()
        invariant
            j <= b.len(),
            forall|k: int| 0 <= k < b@.len() ==> call_requires(*f, (x, #[trigger] b@[k])),
            r@.len() == j,
            forall|k: int| 0 <= k < j ==> call_ensures(*f, (x, b@[k]), #[trigger] r@[k]),
        decreases b.len() - j,
    {
        let z = f(x, b[j]);
        r.push(z);
        j += 1;
    }
    r
}

/// Combines each element of `a` in turn with all of `b`.
pub fn lift_slices<A: Copy, B: Copy, C, F: Fn(A, B) -> C>(a: &[A], f: &F, b: &[B]) -> (r: Vec<C>)
    requires
        combinable(*f, a@, b@),
    ensures
        lifted(a@, *f, b@, r@),
{
    let ghost m = b@.len() as int;
    let mut r: Vec<C> = Vec::new();
    let mut i: usize = 0;
    while i < a.len()
        invariant
            i <= a.len(),
            m == b@.len(),
            combinable(*f, a@, b@),
            r@.len() == i * m,
            forall|p: int, q: int|
                0 <= p < i && 0 <= q < m ==> call_ensures(
                    *f,
                    (#[trigger] a@[p], #[trigger] b@[q]),
                    r@[p * m + q],
                ),
        decreases a.len() - i,
    {
        let mut run = pair_slice(a[i], f, b);
        let ghost before = r@;
        let ghost row = run@;
        r.append(&mut run);
        proof {
            assert((i + 1) * m == i * m + m) by (nonlinear_arith);
            assert forall|p: int, q: int| 0 <= p < i + 1 && 0 <= q < m implies call_ensures(
                *f,
                (#[trigger] a@[p], #[trigger] b@[q]),
                r@[p * m + q],
            ) by {
                if p < i {
                    lemma_cell_in_rows(p, q, i as int, m);
                    assert(r@[p * m + q] == before[p * m + q]);
                } else {
                    assert(r@[i * m + q] == row[q]);
                }
            }
        }
        i += 1;
    }
    r
}

impl<'r, T: 'r + Copy, X: 'r + Copy, U: 'r> Applicative<'r, T, X, U> for Vec<T> {
    fn apply<FAB>(self, fs: FAB) -> (r: Vec<U>)
        where
            X: Fn(T) -> U,
            FAB: Functor<'r, X, X, Rebind = Vec<X>>,
    {
        let fs = to_rebound(fs);
        apply_slice(self.as_slice(), fs.as_slice())
    }

    fn lift_a2<ABC, FB>(self, f: ABC, fb: FB) -> (r: Vec<U>)
        where
            ABC: Fn(T, X) -> U,
            FB: Functor<'r, X, X, Rebind = Vec<X>>,
    {
        let fb = to_rebound(fb);
        lift_slices(self.as_slice(), &f, fb.as_slice())
    }
}

impl<'r, T: 'r + Copy, X: 'r + Copy, U: 'r> Applicative<'r, T, X, U> for &'r [T] {
    fn apply<FAB>(self, fs: FAB) -> (r: Vec<U>)
        where
            X: Fn(T) -> U,
            FAB: Functor<'r, X, X, Rebind = Vec<X>>,
    {
        let fs = to_rebound(fs);
        apply_slice(self, fs.as_slice())
    }

    fn lift_a2<ABC, FB>(self, f: ABC, fb: FB) -> (r: Vec<U>)
        where
            ABC: Fn(T, X) -> U,
            FB: Functor<'r, X, X, Rebind = Vec<X>>,
    {
        let fb = to_rebound(fb);
        lift_slices(self, &f, fb.as_slice())
    }
}

impl<'r, T: 'r + Copy, X: 'r + Copy, U: 'r, const N: usize> Applicative<'r, T, X, U> for [T; N] {
    fn apply<FAB>(self, fs: FAB) -> (r: Vec<U>)
        where
            X: Fn(T) -> U,
            FAB: Functor<'r, X, X, Rebind = Vec<X>>,
    {
        let fs = to_rebound(fs);
        apply_slice(self.as_slice(), fs.as_slice())
    }

    fn lift_a2<ABC, FB>(self, f: ABC, fb: FB) -> (r: Vec<U>)
        where
            ABC: Fn(T, X) -> U,
            FB: Functor<'r, X, X, Rebind = Vec<X>>,
    {
        let fb = to_rebound(fb);
        lift_slices(self.as_slice(), &f, fb.as_slice())
    }
}

/// The number of pairs of one of at most one thing with one of at most one
/// other: one where both are there, none otherwise.
pub proof fn lemma_pairs_of_options(n: nat, m: nat)
    requires
        n <= 1,
        m <= 1,
    ensures
        n * m == (if n == 1 && m == 1 { 1nat } else { 0nat }),
{
    assert(n * m == (if n == 1 && m == 1 { 1nat } else { 0nat })) by (nonlinear_arith)
        requires
            n <= 1,
            m <= 1,
    ;
}

impl<'r, T: 'r, X: 'r, U: 'r> Applicative<'r, T, X, U> for Option<T> {
    fn apply<FAB>(self, fs: FAB) -> (r: Option<U>)
        where
            X: Fn(T) -> U,
            FAB: Functor<'r, X, X, Rebind = Option<X>>,
        ensures
            r is Some <==> self is Some && fs.items().len() == 1,
            r is Some ==> call_ensures(fs.items()[0], (self->0,), r->0),
    {
        let ghost given = fs.items();
        let fs = to_rebound(fs);
        proof {
            lemma_pairs_of_options(option_items(fs).len(), option_items(self).len());
        }
        match fs {
            Some(f) => match self {
                Some(x) => {
                    assert(option_items(fs)[0] == f && option_items(self)[0] == x);
                    let y = f(x);
                    let r = Some(y);
                    assert(option_items(r)[0] == y);
                    assert forall|i: int, j: int|
                        0 <= i < given.len() && 0 <= j < option_items(self).len() implies call_ensures(
                        #[trigger] given[i],
                        (#[trigger] option_items(self)[j],),
                        option_items(r)[i * option_items(self).len() + j],
                    ) by {
                        assert(i * option_items(self).len() + j == 0) by (nonlinear_arith)
                            requires
                                i == 0,
                                j == 0,
                        ;
                    }
                    r
                },
                None => None,
            },
            None => None,
        }
    }

    fn lift_a2<ABC, FB>(self, f: ABC, fb: FB) -> (r: Option<U>)
        where
            ABC: Fn(T, X) -> U,
            FB: Functor<'r, X, X, Rebind = Option<X>>,
        ensures
            r is Some <==> self is Some && fb.items().len() == 1,
            r is Some ==> call_ensures(f, (self->0, fb.items()[0]), r->0),
    {
        let ghost given = fb.items();
        let fb = to_rebound(fb);
        proof {
            lemma_pairs_of_options(option_items(self).len(), option_items(fb).len());
        }
        match self {
            Some(x) => match fb {
                Some(y) => {
                    assert(option_items(self)[0] == x && option_items(fb)[0] == y);
                    let z = f(x, y);
                    let r = Some(z);
                    assert(option_items(r)[0] == z);
                    assert forall|i: int, j: int|
                        0 <= i < option_items(self).len() && 0 <= j < given.len() implies call_ensures(
                        f,
                        (#[trigger] option_items(self)[i], #[trigger] given[j]),
                        option_items(r)[i * given.len() + j],
                    ) by {
                        assert(i * given.len() + j == 0) by (nonlinear_arith)
                            requires
                                i == 0,
                                j == 0,
                        ;
                    }
                    r
                },
                None => None,
            },
            None => None,
        }
    }
}

/// Length and content of an application: there are as many results as
/// pairs of a function and an element, and where the function at each index
/// `k` computes `g(k, _)`, the result for function `i` and element `j` is
/// `g(i, c[j])`.
pub proof fn lemma_applied_values<T, U, F: Fn(T) -> U>(
    c: Seq<T>,
    fs: Seq<F>,
    g: spec_fn(int, T) -> U,
    r: Seq<U>,
    i: int,
    j: int,
)
    requires
        applied(c, fs, r),
        forall|k: int, x: T, y: U| 0 <= k < fs.len() && #[trigger] call_ensures(fs[k], (x,), y) ==> y == g(k, x),
        0 <= i < fs.len(),
        0 <= j < c.len(),
    ensures
        r.len() == fs.len() * c.len(),
        0 <= i * c.len() + j < r.len(),
        r[i * c.len() + j] == g(i, c[j]),
{
    lemma_cell_in_rows(i, j, fs.len() as int, c.len() as int);
    assert(call_ensures(fs[i], (c[j],), r[i * c.len() + j]));
}

/// Cross product: lifting gives as many results as pairs of elements, and
/// where the binary function computes `g`, the result at outer index `i` and
/// inner index `j` is `g(a[i], b[j])`.
pub proof fn lemma_lifted_values<A, B, C, F: Fn(A, B) -> C>(
    a: Seq<A>,
    f: F,
    g: spec_fn(A, B) -> C,
    b: Seq<B>,
    r: Seq<C>,
    i: int,
    j: int,
)
    requires
        lifted(a, f, b, r),
        forall|x: A, y: B, z: C| call_ensures(f, (x, y), z) ==> z == g(x, y),
        0 <= i < a.len(),
        0 <= j < b.len(),
    ensures
        r.len() == a.len() * b.len(),
        0 <= i * b.len() + j < r.len(),
        r[i * b.len() + j] == g(a[i], b[j]),
{
    lemma_cell_in_rows(i, j, a.len() as int, b.len() as int);
    assert(call_ensures(f, (a[i], b[j]), r[i * b.len() + j]));
}

} // verus!
