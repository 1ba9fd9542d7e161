use vstd::prelude::*;

verus! {

/// A value together with the name of the service type it belongs to.
pub struct Named<T> {
    pub name: &'static str,
    pub value: T,
}

impl<T> Named<T> {
    /// Applies `f` to the value and keeps the name.
    pub fn map<U, F: FnOnce(T) -> U>(self, f: F) -> (r: Named<U>)
        requires
            f.requires((self.value,)),
        ensures
            r.name == self.name,
            f.ensures((self.value,), r.value),
    {
        Named { name: self.name, value: f(self.value) }
    }

    /// A new value under the same name.
    pub fn with_value<U>(&self, value: U) -> (r: Named<U>)
        ensures
            r.name == self.name,
            r.value == value,
    {
        Named { name: self.name, value }
    }
}

impl<T: Clone> Clone for Named<T> {
    /// Keeps the name and clones the value.
    fn clone(&self) -> (r: Self)
        ensures
            r.name == self.name,
            cloned(self.value, r.value),
    {
        Named { name: self.name, value: self.value.clone() }
    }
}

/// Mapping a `Named` twice, with `f` and then `g`, gives what mapping it once
/// with their composition `h` gives, when `f` and `g` give one result for each
/// argument.  `once`, `twice` and `composed` are the results of `n.map(f)`,
/// `once.map(g)` and `n.map(h)` as `map` states them.
pub proof fn lemma_map_composes<T, U, V, F: FnOnce(T) -> U, G: FnOnce(U) -> V, H: FnOnce(T) -> V>(
    n: Named<T>,
    f: F,
    g: G,
    h: H,
    once: Named<U>,
    twice: Named<V>,
    composed: Named<V>,
)
    requires
        forall|x: T, y1: U, y2: U| #[trigger] f.ensures((x,), y1) && #[trigger] f.ensures((x,), y2) ==> y1 == y2,
        forall|y: U, z1: V, z2: V| #[trigger] g.ensures((y,), z1) && #[trigger] g.ensures((y,), z2) ==> z1 == z2,
        forall|x: T, z: V| #[trigger] h.ensures((x,), z) ==> exists|y: U| #[trigger] f.ensures((x,), y) && g.ensures((y,), z),
        once.name == n.name,
        f.ensures((n.value,), once.value),
        twice.name == once.name,
        g.ensures((once.value,), twice.value),
        composed.name == n.name,
        h.ensures((n.value,), composed.value),
    ensures
        twice == composed,
{
    let y = choose|y: U| f.ensures((n.value,), y) && g.ensures((y,), composed.value);
    assert(y == once.value);
    assert(composed.value == twice.value);
}

} // verus!
