//! The mapping capability.
use vstd::prelude::*;
use crate::generic::{option_items, Container, Generic1};

verus! {

/// `f` may be called on every element of `c`.
pub open spec fn accepts_all<T, U, F: Fn(T) -> U>(f: F, c: Seq<T>) -> bool {
    forall|i: int| 0 <= i < c.len() ==> call_requires(f, (#[trigger] c[i],))
}

/// `r` is a result of mapping `f` over `c`: it has the length of `c`, and
/// its element at each index is an output of `f` on the element of `c` at
/// that index.
pub open spec fn mapped<T, U, F: Fn(T) -> U>(c: Seq<T>, f: F, r: Seq<U>) -> bool {
    &&& r.len() == c.len()
    &&& forall|i: int| 0 <= i < c.len() ==> call_ensures(f, (c[i],), #[trigger] r[i])
}

/// Element-wise transformation that keeps shape, order and count.
pub trait Functor<'r, T: 'r, U: 'r>: Generic1<'r, T, U> {
    /// Applies `f` to every element, in order, and returns the rebound
    /// container of the results.
    fn fmap<F: Fn(T) -> U>(self, f: F) -> (r: Self::Rebind)
        requires
            accepts_all(f, self.items()),
        ensures
            mapped(self.items(), f, r.items()),
    ;

    /// Drops the container and returns `fb` as it is.
    fn replace(self, fb: Self::Rebind) -> (r: Self::Rebind)
        ensures
            r == fb,
    ;
}

/// Maps `f` over a vector, moving each element into the call.
pub fn map_vec<T, U, F: Fn(T) -> U>(v: Vec<T>, f: &F) -> (r: Vec<U>)
    requires
        accepts_all(*f, v@),
    ensures
        mapped(v@, *f, r@),
{
    let ghost c = v@;
    let mut r: Vec<U> = Vec::new();
    for x in it: v
        invariant
            it.seq() == c,
            accepts_all(*f, c),
            r.len() == it.index(),
            forall|i: int| 0 <= i < r.len() ==> call_ensures(*f, (c[i],), #[trigger] r@[i]),
    {
        let y = f(x);
        r.push(y);
    }
    r
}

/// Moves the elements of an array into a vector. The body is
/// `Vec::from` on an array, the standard library's conversion, which is
/// taken on trust to keep every element, in order.
#[verifier::external_body]
pub(crate) fn array_into_vec<T, const N: usize>(a: [T; N]) -> (v: Vec<T>)
    ensures
        v@ == a@,
{
    Vec::from(a)
}

/// Maps `f` over a slice of copyable elements.
pub fn map_slice<T: Copy, U, F: Fn(T) -> U>(s: &[T], f: &F) -> (r: Vec<U>)
    requires
        accepts_all(*f, s@),
    ensures
        mapped(s@, *f, r@),
{
    let mut r: Vec<U> = Vec::new();
    let mut i: usize = 0;
    while i < s.len()
        invariant
            i <= s.len(),
            accepts_all(*f, s@),
            r.len() == i,
            forall|k: int| 0 <= k < i ==> call_ensures(*f, (s@[k],), #[trigger] r@[k]),
        decreases s.len() - i,
    {
        let y = f(s[i]);
        r.push(y);
        i += 1;
    }
    r
}

impl<'r, T: 'r, U: 'r> Functor<'r, T, U> for Vec<T> {
    fn fmap<F: Fn(T) -> U>(self, f: F) -> (r: Vec<U>) {
        map_vec(self, &f)
    }

    fn replace(self, fb: Vec<U>) -> (r: Vec<U>) {
        fb
    }
}

impl<'r, T: 'r + Copy, U: 'r> Functor<'r, T, U> for &'r [T] {
    fn fmap<F: Fn(T) -> U>(self, f: F) -> (r: Vec<U>) {
        map_slice(self, &f)
    }

    fn replace(self, fb: Vec<U>) -> (r: Vec<U>) {
        fb
    }
}

impl<'r, T: 'r, U: 'r, const N: usize> Functor<'r, T, U> for [T; N] {
    fn fmap<F: Fn(T) -> U>(self, f: F) -> (r: Vec<U>) {
        map_vec(array_into_vec(self), &f)
    }

    fn replace(self, fb: Vec<U>) -> (r: Vec<U>) {
        fb
    }
}

impl<'r, T: 'r, U: 'r> Functor<'r, T, U> for Option<T> {
    fn fmap<F: Fn(T) -> U>(self, f: F) -> (r: Option<U>)
        ensures
            self is None ==> r is None,
            self is Some ==> r is Some && call_ensures(f, (self->0,), r->0),
    {
        match self {
            Some(x) => {
                assert(option_items(self)[0] == x);
                let y = f(x);
                let r = Some(y);
                assert(option_items(r)[0] == y);
                r
            },
            None => None,
        }
    }

    fn replace(self, fb: Option<U>) -> (r: Option<U>) {
        fb
    }
}

/// Brings a container to its rebound shape with the same elements, by
/// mapping the identity over it.
pub fn to_rebound<'r, X: 'r, FX: Functor<'r, X, X>>(c: FX) -> (r: FX::Rebind)
    ensures
        r.items() == c.items(),
{
    let ghost given = c.items();
    let same = |x: X| -> (y: X)
        ensures
            y == x,
        { x };
    let r = c.fmap(same);
    proof {
        lemma_fmap_identity(given, same, r.items());
    }
    r
}

/// An optional value is determined by its content.
pub proof fn lemma_option_items_determine<A>(a: Option<A>, b: Option<A>)
    requires
        option_items(a) == option_items(b),
    ensures
        a == b,
{
    match (a, b) {
        (Some(x), Some(y)) => {
            assert(option_items(a)[0] == x);
            assert(option_items(b)[0] == y);
        },
        (Some(_), None) => {
            assert(option_items(a).len() == 1);
        },
        (None, Some(_)) => {
            assert(option_items(b).len() == 1);
        },
        (None, None) => {},
    }
}

/// Mapping a function whose every output is the value of `g` on its input
/// gives the values of `g` on the elements, in order.
pub proof fn lemma_mapped_values<T, U, F: Fn(T) -> U>(c: Seq<T>, f: F, g: spec_fn(T) -> U, r: Seq<U>)
    requires
        mapped(c, f, r),
        forall|x: T, y: U| call_ensures(f, (x,), y) ==> y == g(x),
    ensures
        r == c.map_values(g),
{
    assert(r =~= c.map_values(g));
}

/// Identity: mapping a function that returns its argument gives back the
/// elements unchanged, in number, order and value.
pub proof fn lemma_fmap_identity<T, F: Fn(T) -> T>(c: Seq<T>, f: F, r: Seq<T>)
    requires
        mapped(c, f, r),
        forall|x: T, y: T| call_ensures(f, (x,), y) ==> y == x,
    ensures
        r == c,
{
    assert(r =~= c);
}

/// Identity, for any shape: the rebound container that mapping a function
/// that returns its argument gives holds what the container held.
pub proof fn lemma_fmap_identity_shape<'r, T: 'r, S: Functor<'r, T, T>, F: Fn(T) -> T>(
    c: S,
    f: F,
    r: S::Rebind,
)
    requires
        mapped(c.items(), f, r.items()),
        forall|x: T, y: T| call_ensures(f, (x,), y) ==> y == x,
    ensures
        r.items() == c.items(),
{
    lemma_fmap_identity(c.items(), f, r.items());
}

/// Identity on optional values: mapping a function that returns its argument
/// over an optional value gives back that optional value.
pub proof fn lemma_fmap_identity_option<T, F: Fn(T) -> T>(c: Option<T>, f: F, r: Option<T>)
    requires
        mapped(option_items(c), f, option_items(r)),
        forall|x: T, y: T| call_ensures(f, (x,), y) ==> y == x,
    ensures
        r == c,
{
    lemma_fmap_identity(option_items(c), f, option_items(r));
    lemma_option_items_determine(c, r);
}

/// Composition: mapping `f` and then `g` gives what mapping their
/// composition `h` gives, where `f` computes `sf`, `g` computes `sg` and `h`
/// computes `sg` after `sf`.
pub proof fn lemma_fmap_composition<T, U, V, F: Fn(T) -> U, G: Fn(U) -> V, H: Fn(T) -> V>(
    c: Seq<T>,
    f: F,
    g: G,
    h: H,
    sf: spec_fn(T) -> U,
    sg: spec_fn(U) -> V,
    mid: Seq<U>,
    two_steps: Seq<V>,
    one_step: Seq<V>,
)
    requires
        forall|x: T, y: U| call_ensures(f, (x,), y) ==> y == sf(x),
        forall|y: U, z: V| call_ensures(g, (y,), z) ==> z == sg(y),
        forall|x: T, z: V| call_ensures(h, (x,), z) ==> z == sg(sf(x)),
        mapped(c, f, mid),
        mapped(mid, g, two_steps),
        mapped(c, h, one_step),
    ensures
        two_steps == one_step,
        two_steps == c.map_values(sf).map_values(sg),
{
    lemma_mapped_values(c, f, sf, mid);
    lemma_mapped_values(mid, g, sg, two_steps);
    lemma_mapped_values(c, h, |x: T| sg(sf(x)), one_step);
    assert(one_step =~= c.map_values(sf).map_values(sg));
}

} // verus!
