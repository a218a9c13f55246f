//! Interning pool: a deduplicating registry that gives each distinct text a
//! stable, sequential small integer identity.
use vstd::prelude::*;

verus! {

/// Identity of an interned text.
pub type Id = u32;

/// True when no text appears twice in the registry.
pub open spec fn distinct_texts(p: Seq<Seq<char>>) -> bool {
    forall|i: int, j: int|
        0 <= i < p.len() && 0 <= j < p.len() && i != j ==> #[trigger] p[i] != #[trigger] p[j]
}

/// The registry after interning `s`: unchanged when `s` is already held,
/// otherwise `s` appended at the end.
pub open spec fn interned(p: Seq<Seq<char>>, s: Seq<char>) -> Seq<Seq<char>> {
    if p.contains(s) {
        p
    } else {
        p.push(s)
    }
}

/// The identity that interning `s` into `p` hands out: the position at which
/// `s` is held, or the next free position when it is new.
pub open spec fn id_of(p: Seq<Seq<char>>, s: Seq<char>) -> int {
    if p.contains(s) {
        choose|i: int| 0 <= i < p.len() && p[i] == s
    } else {
        p.len() as int
    }
}

/// The text that resolving `id` yields: the stored text, or the empty text for
/// an identity that was never handed out.
pub open spec fn resolved(p: Seq<Seq<char>>, id: int) -> Seq<char> {
    if 0 <= id < p.len() {
        p[id]
    } else {
        Seq::empty()
    }
}

/// Interning keeps the registry free of repeated texts, and resolving the
/// identity that interning hands out yields exactly the text interned.
pub proof fn lemma_intern_resolves(p: Seq<Seq<char>>, s: Seq<char>)
    requires
        distinct_texts(p),
    ensures
        distinct_texts(interned(p, s)),
        0 <= id_of(p, s) < interned(p, s).len(),
        resolved(interned(p, s), id_of(p, s)) == s,
{
    if p.contains(s) {
        let c = choose|i: int| 0 <= i < p.len() && p[i] == s;
        assert(p[c] == s);
    } else {
        let q = p.push(s);
        assert forall|i: int, j: int|
            0 <= i < q.len() && 0 <= j < q.len() && i != j implies #[trigger] q[i] != #[trigger] q[j] by {
            if i < p.len() && j < p.len() {
                assert(p[i] != p[j]);
            } else if i < p.len() {
                assert(p[i] != s);
            } else {
                assert(p[j] != s);
            }
        }
    }
}

/// Interning the same text twice hands out the same identity both times, and
/// the second time leaves the registry as the first left it.
pub proof fn lemma_intern_twice(p: Seq<Seq<char>>, s: Seq<char>)
    requires
        distinct_texts(p),
    ensures
        interned(interned(p, s), s) == interned(p, s),
        id_of(interned(p, s), s) == id_of(p, s),
{
    lemma_intern_resolves(p, s);
    let q = interned(p, s);
    assert(q[id_of(p, s)] == s);
    assert(q.contains(s));
    let c = choose|i: int| 0 <= i < q.len() && q[i] == s;
    assert(q[c] == s);
}

/// Two distinct texts interned one after the other get distinct identities.
pub proof fn lemma_intern_distinct(p: Seq<Seq<char>>, s: Seq<char>, t: Seq<char>)
    requires
        distinct_texts(p),
        s != t,
    ensures
        id_of(p, s) != id_of(interned(p, s), t),
{
    lemma_intern_resolves(p, s);
    let q = interned(p, s);
    lemma_intern_resolves(q, t);
    let r = interned(q, t);
    assert(r[id_of(q, t)] == t);
    assert(q[id_of(p, s)] == s);
    if q.contains(t) {
    } else {
        assert(id_of(q, t) == q.len());
    }
}

/// The registry after interning each of `ss` in turn.
pub open spec fn interned_all(p: Seq<Seq<char>>, ss: Seq<Seq<char>>) -> Seq<Seq<char>>
    decreases ss.len(),
{
    if ss.len() == 0 {
        p
    } else {
        interned(interned_all(p, ss.drop_last()), ss.last())
    }
}

/// Interning never changes what an identity already handed out resolves to.
pub proof fn lemma_intern_keeps(p: Seq<Seq<char>>, s: Seq<char>, id: int)
    requires
        0 <= id < p.len(),
    ensures
        resolved(interned(p, s), id) == resolved(p, id),
{
}

/// The identity handed out for `s` keeps resolving to exactly `s`, however
/// many texts are interned afterwards.
pub proof fn lemma_id_stays(p: Seq<Seq<char>>, s: Seq<char>, later: Seq<Seq<char>>)
    requires
        distinct_texts(p),
    ensures
        resolved(interned_all(interned(p, s), later), id_of(p, s)) == s,
        interned(p, s).is_prefix_of(interned_all(interned(p, s), later)),
    decreases later.len(),
{
    lemma_intern_resolves(p, s);
    let q = interned(p, s);
    if later.len() > 0 {
        lemma_id_stays(p, s, later.drop_last());
        let r = interned_all(q, later.drop_last());
        lemma_intern_keeps(r, later.last(), id_of(p, s));
        assert(q.is_prefix_of(interned(r, later.last())));
    } else {
        assert(q.is_prefix_of(q));
    }
}

/// A registry of interned texts, each stored once, in order of first interning.
///
/// The texts are kept in one vector and looked up by scanning it. A second
/// index keyed by `String` would have to be kept in step with the vector by an
/// invariant that nothing here can prove of a hashed map, so uniqueness is
/// stated of the vector alone (`distinct_texts`) and proved for every insertion.
pub struct Object {
    str_heap: Vec<String>,
}

impl View for Object {
    type V = Seq<Seq<char>>;

    closed spec fn view(&self) -> Seq<Seq<char>> {
        self.str_heap@.map_values(|s: String| s@)
    }
}

impl Object {
    /// Every stored text is distinct and every position fits in an `Id`.
    pub open spec fn wf(&self) -> bool {
        distinct_texts(self@) && self@.len() <= u32::MAX as nat
    }

    pub fn new() -> (r: Object)
        ensures
            r.wf(),
            r@ == Seq::<Seq<char>>::empty(),
    {
        let r = Object { str_heap: Vec::new() };
        proof {
            assert(r@ =~= Seq::<Seq<char>>::empty());
        }
        r
    }

    /// Number of texts held.
    pub fn len(&self) -> (r: usize)
        ensures
            r == self@.len(),
    {
        self.str_heap.len()
    }

    /// Interns `value`: returns the identity it already has, or stores it under
    /// the next sequential identity.
    pub fn add_str(&mut self, value: &str) -> (r: Id)
        requires
            old(self).wf(),
            old(self)@.len() < u32::MAX,
        ensures
            final(self).wf(),
            final(self)@ == interned(old(self)@, value@),
            r == id_of(old(self)@, value@),
            final(self)@[r as int] == value@,
    {
        let text = value.to_owned();
        let n = self.str_heap.len();
        let mut i: usize = 0;
        while i < n
            invariant
                n == self.str_heap@.len(),
                n < u32::MAX,
                self.wf(),
                text@ == value@,
                0 <= i <= n,
                forall|k: int| 0 <= k < i ==> self@[k] != value@,
            decreases n - i,
        {
            let same = self.str_heap[i] == text;
            proof {
                assert(self@[i as int] == self.str_heap@[i as int]@);
            }
            if same {
                proof {
                    assert(self@[i as int] == value@);
                    assert(self@.contains(value@));
                    let c = choose|j: int| 0 <= j < self@.len() && self@[j] == value@;
                    assert(self@[c] == value@);
                    assert(c == i as int);
                }
                return i as Id;
            }
            i = i + 1;
        }
        let ghost before = self@;
        proof {
            assert(!before.contains(value@));
        }
        self.str_heap.push(text);
        proof {
            assert(self@ =~= before.push(value@));
        }
        n as Id
    }

    /// The text stored under `id`, or the empty text for an identity that was
    /// never handed out.
    pub fn str_at(&self, id: Id) -> (r: String)
        ensures
            r@ == resolved(self@, id as int),
    {
        let id = id as usize;
        if id < self.str_heap.len() {
            self.str_heap[id].clone()
        } else {
            String::new()
        }
    }
}

/// A fresh, empty pool.
pub fn make() -> (r: Object)
    ensures
        r.wf(),
        r@ == Seq::<Seq<char>>::empty(),
{
    Object::new()
}

} // verus!
