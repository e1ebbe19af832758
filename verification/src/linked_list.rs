//! A doubly-linked list of node keys.
//!
//! The list does not own its elements: a node is a `usize` key chosen by the owner of the
//! element (for the waiter lists, the key of a waiter slot). The list stores the `next` and
//! `prev` links of every key it has seen, and keeps them consistent with the order of the
//! nodes that are currently linked.
use vstd::prelude::*;

verus! {

/// The links of one node: its neighbours in the list.
#[derive(Clone, Copy, Debug, PartialEq, Eq)]
pub struct Pointers {
    pub next: Option<usize>,
    pub prev: Option<usize>,
}

impl Pointers {
    /// Links that point nowhere.
    pub fn new() -> (p: Self)
        ensures
            p.next is None,
            p.prev is None,
    {
        Pointers { next: None, prev: None }
    }
}

/// The links that node `s[i]` carries while the list holds the nodes `s`, in order.
pub open spec fn links_at(s: Seq<usize>, i: int) -> Pointers {
    Pointers {
        next: if i + 1 < s.len() { Some(s[i + 1]) } else { None },
        prev: if i > 0 { Some(s[i - 1]) } else { None },
    }
}

/// The sequence `s` without one occurrence of `x` (in a list without duplicates, the only
/// one).
pub open spec fn without(s: Seq<usize>, x: usize) -> Seq<usize> {
    s.remove(s.index_of(x))
}

/// An intrusive-style doubly-linked list over node keys.
///
/// Its view is the sequence of linked keys, front to back.
pub struct LinkedList {
    head: Option<usize>,
    tail: Option<usize>,
    links: Vec<Pointers>,
    nodes: Ghost<Seq<usize>>,
}

impl View for LinkedList {
    type V = Seq<usize>;

    closed spec fn view(&self) -> Seq<usize> {
        self.nodes@
    }
}

impl LinkedList {
    /// The list is well formed: no key is linked twice, and `head`, `tail` and the stored
    /// links of every linked key follow the order of the view.
    pub closed spec fn wf(&self) -> bool {
        let s = self.nodes@;
        &&& s.no_duplicates()
        &&& forall|i: int|
            0 <= i < s.len() ==> (#[trigger] s[i]) < self.links@.len() && self.links@[s[i] as int]
                == links_at(s, i)
        &&& self.head == (if s.len() > 0 {
            Some(s[0])
        } else {
            None
        })
        &&& self.tail == (if s.len() > 0 {
            Some(s.last())
        } else {
            None
        })
    }

    /// A well-formed list links each key at most once.
    pub proof fn lemma_no_duplicates(&self)
        requires
            self.wf(),
        ensures
            self@.no_duplicates(),
    {
    }

    /// Creates a new, empty `LinkedList`.
    pub fn new() -> (list: Self)
        ensures
            list.wf(),
            list@ == Seq::<usize>::empty(),
    {
        LinkedList { head: None, tail: None, links: Vec::new(), nodes: Ghost(Seq::empty()) }
    }

    /// Makes room for the links of `key`, keeping every stored link.
    fn reserve(&mut self, key: usize)
        requires
            old(self).wf(),
        ensures
            final(self).wf(),
            final(self)@ == old(self)@,
            key < final(self).links@.len(),
            final(self).head == old(self).head,
            final(self).tail == old(self).tail,
            forall|j: int|
                0 <= j < old(self).links@.len() ==> #[trigger] final(self).links@[j] == old(
                    self,
                ).links@[j],
    {
        while self.links.len() <= key
            invariant
                old(self).wf(),
                self.nodes@ == old(self).nodes@,
                self.head == old(self).head,
                self.tail == old(self).tail,
                old(self).links@.len() <= self.links@.len(),
                forall|j: int|
                    0 <= j < old(self).links@.len() ==> #[trigger] self.links@[j] == old(
                        self,
                    ).links@[j],
            decreases key + 1 - self.links.len(),
        {
            self.links.push(Pointers::new());
        }
        proof {
            let s = self.nodes@;
            assert forall|i: int| 0 <= i < s.len() implies (#[trigger] s[i]) < self.links@.len()
                && self.links@[s[i] as int] == links_at(s, i) by {
                assert(old(self).links@[s[i] as int] == links_at(s, i));
            }
        }
    }

    /// Pushes `key` to the front of the list.
    ///
    /// `key` must not be linked already.
    pub fn push_front(&mut self, key: usize)
        requires
            old(self).wf(),
            !old(self)@.contains(key),
        ensures
            final(self).wf(),
            final(self)@ == seq![key] + old(self)@,
    {
        self.reserve(key);
        let ghost s = self.nodes@;
        let head = self.head;
        self.links.set(key, Pointers { next: head, prev: None });
        match head {
            None => {
                self.tail = Some(key);
            },
            Some(h) => {
                assert(s[0] == h);
                let mut p = self.links[h];
                p.prev = Some(key);
                self.links.set(h, p);
            },
        }
        self.head = Some(key);
        let ghost ns = seq![key] + s;
        self.nodes = Ghost(ns);
        proof {
            assert forall|i: int| 0 <= i < ns.len() implies (#[trigger] ns[i]) < self.links@.len()
                && self.links@[ns[i] as int] == links_at(ns, i) by {
                if i > 0 {
                    assert(ns[i] == s[i - 1]);
                    assert(s[i - 1] != key);
                    if i > 1 {
                        assert(s[i - 1] != s[0]);
                    }
                    assert(links_at(s, i - 1).next == links_at(ns, i).next);
                }
            }
            assert forall|a: int, b: int|
                0 <= a < ns.len() && 0 <= b < ns.len() && a != b implies ns[a] != ns[b] by {
                if a > 0 && b > 0 {
                    assert(ns[a] == s[a - 1] && ns[b] == s[b - 1]);
                } else if a == 0 {
                    assert(ns[b] == s[b - 1]);
                } else {
                    assert(ns[a] == s[a - 1]);
                }
            }
            assert(ns.last() == if s.len() > 0 {
                s.last()
            } else {
                key
            });
        }
    }

    /// Pushes `key` to the back of the list.
    ///
    /// `key` must not be linked already.
    pub fn push_back(&mut self, key: usize)
        requires
            old(self).wf(),
            !old(self)@.contains(key),
        ensures
            final(self).wf(),
            final(self)@ == old(self)@.push(key),
    {
        self.reserve(key);
        let ghost s = self.nodes@;
        let tail = self.tail;
        self.links.set(key, Pointers { next: None, prev: tail });
        match tail {
            None => {
                self.head = Some(key);
            },
            Some(t) => {
                assert(s[s.len() - 1] == t);
                let mut p = self.links[t];
                p.next = Some(key);
                self.links.set(t, p);
            },
        }
        self.tail = Some(key);
        let ghost ns = s.push(key);
        self.nodes = Ghost(ns);
        proof {
            assert forall|i: int| 0 <= i < ns.len() implies (#[trigger] ns[i]) < self.links@.len()
                && self.links@[ns[i] as int] == links_at(ns, i) by {
                if i < s.len() {
                    assert(ns[i] == s[i]);
                    assert(s[i] != key);
                    if i < s.len() - 1 {
                        assert(s[i] != s[s.len() - 1]);
                    }
                    assert(links_at(s, i).prev == links_at(ns, i).prev);
                }
            }
            assert forall|a: int, b: int|
                0 <= a < ns.len() && 0 <= b < ns.len() && a != b implies ns[a] != ns[b] by {
                if a < s.len() && b < s.len() {
                } else if a == s.len() {
                    assert(s[b] == ns[b]);
                } else {
                    assert(s[a] == ns[a]);
                }
            }
        }
    }

    /// Removes `key` from the list, linking its neighbours to each other.
    ///
    /// `key` must be linked.
    #[verifier::rlimit(30)]
    pub fn remove(&mut self, key: usize)
        requires
            old(self).wf(),
            old(self)@.contains(key),
        ensures
            final(self).wf(),
            final(self)@ == without(old(self)@, key),
            forall|i: int|
                0 <= i < old(self)@.len() && old(self)@[i] == key ==> final(self)@ == old(
                    self,
                )@.remove(i),
    {
        let ghost s = self.nodes@;
        let ghost i = s.index_of(key);
        assert(s[i] == key);
        let p = self.links[key];
        assert(p == links_at(s, i));
        match p.next {
            Some(n) => {
                assert(n == s[i + 1]);
                let mut q = self.links[n];
                q.prev = p.prev;
                self.links.set(n, q);
            },
            None => {
                self.tail = p.prev;
            },
        }
        match p.prev {
            Some(pv) => {
                assert(pv == s[i - 1]);
                let mut q = self.links[pv];
                q.next = p.next;
                self.links.set(pv, q);
            },
            None => {
                self.head = p.next;
            },
        }
        let ghost ns = s.remove(i);
        self.nodes = Ghost(ns);
        proof {
            s.remove_ensures(i);
            assert forall|j: int| 0 <= j < ns.len() implies (#[trigger] ns[j]) < self.links@.len()
                && self.links@[ns[j] as int] == links_at(ns, j) by {
                if j < i {
                    assert(ns[j] == s[j]);
                    assert(s[j] != key);
                    if j < i - 1 {
                        assert(s[j] != s[i - 1]);
                        if i + 1 < s.len() {
                            assert(s[j] != s[i + 1]);
                        }
                        assert(links_at(s, j) == links_at(ns, j));
                    } else {
                        if i + 1 < s.len() {
                            assert(s[j] != s[i + 1]);
                        }
                    }
                } else {
                    assert(ns[j] == s[j + 1]);
                    assert(s[j + 1] != key);
                    if j > i {
                        assert(s[j + 1] != s[i + 1]);
                        if i > 0 {
                            assert(s[j + 1] != s[i - 1]);
                        }
                        assert(links_at(s, j + 1) == links_at(ns, j));
                    } else {
                        if i > 0 {
                            assert(s[j + 1] != s[i - 1]);
                        }
                    }
                }
            }
            assert forall|a: int, b: int|
                0 <= a < ns.len() && 0 <= b < ns.len() && a != b implies ns[a] != ns[b] by {
                let sa = if a < i {
                    a
                } else {
                    a + 1
                };
                let sb = if b < i {
                    b
                } else {
                    b + 1
                };
                assert(ns[a] == s[sa] && ns[b] == s[sb]);
            }
            assert forall|j: int| 0 <= j < s.len() && s[j] == key implies ns == s.remove(j) by {
                assert(j == i);
            }
            if ns.len() > 0 {
                if i == 0 {
                    assert(ns[0] == s[1]);
                }
                if i == s.len() - 1 {
                    assert(ns.last() == s[i - 1]);
                } else {
                    assert(ns.last() == s.last());
                }
            }
        }
    }

    /// Returns `true` if the list is empty.
    pub fn is_empty(&self) -> (b: bool)
        requires
            self.wf(),
        ensures
            b == (self@.len() == 0),
    {
        self.head.is_none()
    }

    /// Returns the linked keys, front to back, found by following the `next` links.
    pub fn iter_mut(&self) -> (keys: Vec<usize>)
        requires
            self.wf(),
        ensures
            keys@ == self@,
    {
        let ghost s = self.nodes@;
        let mut keys: Vec<usize> = Vec::new();
        let mut cur = self.head;
        while cur.is_some()
            invariant
                self.wf(),
                s == self.nodes@,
                keys.len() <= s.len(),
                keys@ == s.subrange(0, keys.len() as int),
                cur == (if keys.len() < s.len() {
                    Some(s[keys.len() as int])
                } else {
                    None::<usize>
                }),
            decreases s.len() - keys.len(),
        {
            let k = cur.unwrap();
            let ghost n = keys.len() as int;
            assert(s[n] < self.links@.len() && self.links@[s[n] as int] == links_at(s, n));
            keys.push(k);
            cur = self.links[k].next;
            assert(keys@ == s.subrange(0, keys.len() as int));
        }
        assert(keys@ == s);
        keys
    }

    /// Returns the key at the front of the list.
    pub fn front(&self) -> (k: Option<usize>)
        requires
            self.wf(),
        ensures
            k == (if self@.len() > 0 {
                Some(self@[0])
            } else {
                None
            }),
    {
        self.head
    }

    /// Returns the key at the front of the list.
    pub fn head(&self) -> (k: Option<usize>)
        requires
            self.wf(),
        ensures
            k == (if self@.len() > 0 {
                Some(self@[0])
            } else {
                None
            }),
    {
        self.head
    }

    /// Returns the key at the back of the list.
    pub fn tail(&self) -> (k: Option<usize>)
        requires
            self.wf(),
        ensures
            k == (if self@.len() > 0 {
                Some(self@.last())
            } else {
                None
            }),
    {
        self.tail
    }

    /// Returns the links stored for `key`. For a linked key they are its neighbours.
    pub fn pointers(&self, key: usize) -> (p: Pointers)
        requires
            self.wf(),
        ensures
            forall|i: int| 0 <= i < self@.len() && self@[i] == key ==> p == links_at(self@, i),
    {
        if key < self.links.len() {
            self.links[key]
        } else {
            Pointers::new()
        }
    }
}

/// Pushing a key that is not linked to the back, then removing it, gives back the list as
/// it was.
pub proof fn lemma_push_back_then_remove(s: Seq<usize>, key: usize)
    requires
        !s.contains(key),
    ensures
        without(s.push(key), key) == s,
{
    let t = s.push(key);
    assert(t[s.len() as int] == key);
    let i = t.index_of(key);
    if i < s.len() {
        assert(s[i] == key);
    }
    assert(t.remove(i) =~= s);
}

/// Pushing a key that is not linked to the front, then removing it, gives back the list as
/// it was.
pub proof fn lemma_push_front_then_remove(s: Seq<usize>, key: usize)
    requires
        !s.contains(key),
    ensures
        without(seq![key] + s, key) == s,
{
    let t = seq![key] + s;
    assert(t[0] == key);
    let i = t.index_of(key);
    if i > 0 {
        assert(s[i - 1] == t[i]);
    }
    assert(t.remove(i) =~= s);
}

/// Removing a linked key takes away exactly that key: every other linked key stays linked,
/// in the same order, and the list is one shorter.
pub proof fn lemma_remove_keeps_others(s: Seq<usize>, key: usize)
    requires
        s.no_duplicates(),
        s.contains(key),
    ensures
        without(s, key).len() == s.len() - 1,
        !without(s, key).contains(key),
        forall|x: usize| x != key ==> (s.contains(x) <==> without(s, key).contains(x)),
{
    let i = s.index_of(key);
    let t = s.remove(i);
    s.remove_ensures(i);
    assert forall|j: int| 0 <= j < t.len() implies t[j] != key by {
        if j < i {
            assert(t[j] == s[j]);
        } else {
            assert(t[j] == s[j + 1]);
        }
    }
    assert forall|x: usize| x != key implies (s.contains(x) <==> t.contains(x)) by {
        if s.contains(x) {
            let j = choose|j: int| 0 <= j < s.len() && s[j] == x;
            if j < i {
                assert(t[j] == x);
            } else {
                assert(j != i);
                assert(t[j - 1] == x);
            }
        }
        if t.contains(x) {
            let j = choose|j: int| 0 <= j < t.len() && t[j] == x;
            if j < i {
                assert(s[j] == x);
            } else {
                assert(s[j + 1] == x);
            }
        }
    }
}

/// Pushing `x` onto `s` adds exactly `x`.
pub proof fn lemma_push_contains(s: Seq<usize>, x: usize, y: usize)
    ensures
        s.push(x).contains(y) == (s.contains(y) || y == x),
{
    if s.push(x).contains(y) && y != x {
        let j = choose|j: int| 0 <= j < s.push(x).len() && s.push(x)[j] == y;
        assert(s[j] == y);
    }
    if s.contains(y) {
        let j = choose|j: int| 0 <= j < s.len() && s[j] == y;
        assert(s.push(x)[j] == y);
    }
    if y == x {
        assert(s.push(x)[s.len() as int] == y);
    }
}

impl Clone for LinkedList {
    /// A list with the same links, head and tail.
    fn clone(&self) -> (list: Self)
        ensures
            list@ == self@,
            self.wf() ==> list.wf(),
    {
        LinkedList {
            head: self.head,
            tail: self.tail,
            links: self.links.clone(),
            nodes: Ghost(self.nodes@),
        }
    }
}

impl Default for LinkedList {
    fn default() -> (list: Self)
        ensures
            list.wf(),
            list@ == Seq::<usize>::empty(),
    {
        Self::new()
    }
}

} // verus!
