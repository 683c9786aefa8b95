//! The nested-scope structure: a stack of binding frames, innermost last,
//! used during semantic analysis to bind identifiers to their declarations.
//!
//! The whole stack is modelled as a `Seq<Map<Seq<char>, V>>` (one map per
//! frame); [`env_resolve`] and [`env_declare`] are the mathematical
//! counterparts of [`Scope::get`] and [`Scope::insert`].

use vstd::prelude::*;

verus! {

/// The binding that one frame associates with one name, as a map over the
/// name's character sequence.
pub open spec fn frame_map<V>(f: Seq<(String, V)>) -> Map<Seq<char>, V>
    decreases f.len(),
{
    if f.len() == 0 {
        Map::empty()
    } else {
        frame_map(f.drop_last()).insert(f.last().0@, f.last().1)
    }
}

/// All keys of one frame are distinct, so the frame denotes its map uniquely.
pub open spec fn frame_keys_distinct<V>(f: Seq<(String, V)>) -> bool {
    forall|i: int, j: int| 0 <= i < j < f.len() ==> f[i].0@ != f[j].0@
}

/// Looks a name up in a stack of frames, innermost (last) first: lexical
/// shadowing, the innermost declaration wins.
pub open spec fn env_resolve<V>(env: Seq<Map<Seq<char>, V>>, name: Seq<char>) -> Option<V>
    decreases env.len(),
{
    if env.len() == 0 {
        None
    } else if env.last().dom().contains(name) {
        Some(env.last()[name])
    } else {
        env_resolve(env.drop_last(), name)
    }
}

/// Adds a binding to the innermost frame of a stack.
pub open spec fn env_declare<V>(
    env: Seq<Map<Seq<char>, V>>,
    name: Seq<char>,
    value: V,
) -> Seq<Map<Seq<char>, V>>
    recommends
        env.len() > 0,
{
    env.update(env.len() - 1, env.last().insert(name, value))
}

/// A stack of binding frames, innermost last.  Each frame is kept as an
/// association list with distinct keys; its meaning is the map built by
/// [`frame_map`].
pub struct Scope<V> {
    frames: Vec<Vec<(String, V)>>,
}

impl<V> View for Scope<V> {
    type V = Seq<Map<Seq<char>, V>>;

    closed spec fn view(&self) -> Seq<Map<Seq<char>, V>> {
        Seq::new(self.frames@.len(), |i: int| frame_map(self.frames@[i]@))
    }
}

proof fn lemma_frame_map_contains<V>(f: Seq<(String, V)>, k: Seq<char>)
    ensures
        frame_map(f).dom().contains(k) <==> exists|i: int| 0 <= i < f.len() && f[i].0@ == k,
    decreases f.len(),
{
    if f.len() > 0 {
        lemma_frame_map_contains(f.drop_last(), k);
        if f.last().0@ == k {
            assert(f[f.len() - 1].0@ == k);
        } else if frame_map(f).dom().contains(k) {
            let i = choose|i: int| 0 <= i < f.drop_last().len() && f.drop_last()[i].0@ == k;
            assert(f[i].0@ == k);
        } else if exists|i: int| 0 <= i < f.len() && f[i].0@ == k {
            let i = choose|i: int| 0 <= i < f.len() && f[i].0@ == k;
            assert(f.drop_last()[i].0@ == k);
        }
    }
}

proof fn lemma_frame_map_index<V>(f: Seq<(String, V)>, i: int)
    requires
        frame_keys_distinct(f),
        0 <= i < f.len(),
    ensures
        frame_map(f).dom().contains(f[i].0@),
        frame_map(f)[f[i].0@] == f[i].1,
    decreases f.len(),
{
    if i == f.len() - 1 {
    } else {
        assert(frame_keys_distinct(f.drop_last()));
        lemma_frame_map_index(f.drop_last(), i);
        assert(f.drop_last()[i] == f[i]);
        assert(f.last().0@ != f[i].0@);
    }
}

proof fn lemma_frame_map_update<V>(f: Seq<(String, V)>, i: int, p: (String, V))
    requires
        frame_keys_distinct(f),
        0 <= i < f.len(),
        p.0@ == f[i].0@,
    ensures
        frame_map(f.update(i, p)) == frame_map(f).insert(p.0@, p.1),
    decreases f.len(),
{
    let g = f.update(i, p);
    if i == f.len() - 1 {
        assert(g.drop_last() =~= f.drop_last());
        assert(frame_map(g) =~= frame_map(f).insert(p.0@, p.1));
    } else {
        assert(frame_keys_distinct(f.drop_last()));
        lemma_frame_map_update(f.drop_last(), i, p);
        assert(g.drop_last() =~= f.drop_last().update(i, p));
        assert(g.last() == f.last());
        assert(f.last().0@ != f[i].0@);
        assert(frame_map(g) =~= frame_map(f).insert(p.0@, p.1));
    }
}

impl<V> Scope<V> {
    #[verifier::type_invariant]
    spec fn wf(self) -> bool {
        forall|i: int| 0 <= i < self.frames@.len() ==> frame_keys_distinct(self.frames@[i]@)
    }

    /// Creates a new scope holding a single empty frame: the global frame.
    pub fn new() -> (r: Self)
        ensures
            r@ == seq![Map::<Seq<char>, V>::empty()],
    {
        let mut frames: Vec<Vec<(String, V)>> = Vec::new();
        frames.push(Vec::new());
        let r = Scope { frames };
        proof {
            assert(r@ =~= seq![Map::<Seq<char>, V>::empty()]);
        }
        r
    }

    /// Pushes a new, empty binding frame: called on entry to a block.
    pub fn enter_scope(&mut self)
        ensures
            final(self)@ == old(self)@.push(Map::<Seq<char>, V>::empty()),
    {
        proof {
            use_type_invariant(&*self);
        }
        let mut frames: Vec<Vec<(String, V)>> = Vec::new();
        std::mem::swap(&mut frames, &mut self.frames);
        frames.push(Vec::new());
        std::mem::swap(&mut frames, &mut self.frames);
        proof {
            assert(self@ =~= old(self)@.push(Map::<Seq<char>, V>::empty()));
        }
    }

    /// Pops the innermost frame, discarding all bindings declared within it;
    /// on an already empty stack it does nothing.
    pub fn leave_scope(&mut self)
        ensures
            final(self)@ == if old(self)@.len() > 0 {
                old(self)@.drop_last()
            } else {
                old(self)@
            },
    {
        proof {
            use_type_invariant(&*self);
        }
        let mut frames: Vec<Vec<(String, V)>> = Vec::new();
        std::mem::swap(&mut frames, &mut self.frames);
        if frames.len() > 0 {
            frames.pop();
        }
        std::mem::swap(&mut frames, &mut self.frames);
        proof {
            if old(self)@.len() > 0 {
                assert(self@ =~= old(self)@.drop_last());
            } else {
                assert(self@ =~= old(self)@);
            }
        }
    }

    /// Searches the frames from innermost to outermost and returns the first
    /// binding for `item`: the resolution step of lexical shadowing.
    pub fn get(&self, item: &String) -> (r: Option<&V>)
        ensures
            match r {
                Some(v) => env_resolve(self@, item@) == Some(*v),
                None => env_resolve(self@, item@) is None,
            },
    {
        proof {
            use_type_invariant(&*self);
        }
        let mut j: usize = self.frames.len();
        proof {
            assert(self@.subrange(0, j as int) =~= self@);
        }
        while j > 0
            invariant
                self.wf(),
                j <= self.frames@.len(),
                env_resolve(self@, item@) == env_resolve(self@.subrange(0, j as int), item@),
            decreases j,
        {
            let frame: &Vec<(String, V)> = &self.frames[j - 1];
            let mut i: usize = 0;
            while i < frame.len()
                invariant
                    self.wf(),
                    0 < j <= self.frames@.len(),
                    i <= frame@.len(),
                    frame@ == self.frames@[j - 1]@,
                    forall|m: int| 0 <= m < i ==> frame@[m].0@ != item@,
                    env_resolve(self@, item@) == env_resolve(self@.subrange(0, j as int), item@),
                decreases frame@.len() - i,
            {
                if frame[i].0 == *item {
                    proof {
                        assert(frame_keys_distinct(frame@));
                        lemma_frame_map_index(frame@, i as int);
                        assert(self@.subrange(0, j as int).last() == frame_map(frame@));
                    }
                    return Some(&frame[i].1);
                }
                i = i + 1;
            }
            proof {
                lemma_frame_map_contains(frame@, item@);
                assert(!frame_map(frame@).dom().contains(item@));
                assert(self@.subrange(0, j as int).last() == frame_map(frame@));
                assert(self@.subrange(0, j as int).drop_last() =~= self@.subrange(
                    0,
                    j as int - 1,
                ));
            }
            j = j - 1;
        }
        proof {
            assert(self@.subrange(0, 0).len() == 0);
        }
        None
    }

    /// Inserts a binding into the innermost frame, returning the previous
    /// binding for that name in that same frame if one existed.
    pub fn insert(&mut self, key: String, value: V) -> (r: Option<V>)
        requires
            old(self)@.len() > 0,
        ensures
            final(self)@ == env_declare(old(self)@, key@, value),
            match r {
                Some(prev) => old(self)@.last().dom().contains(key@) && old(self)@.last()[key@]
                    == prev,
                None => !old(self)@.last().dom().contains(key@),
            },
    {
        proof {
            use_type_invariant(&*self);
        }
        let mut frames: Vec<Vec<(String, V)>> = Vec::new();
        std::mem::swap(&mut frames, &mut self.frames);
        let mut top: Vec<(String, V)> = frames.pop().unwrap();
        let ghost old_top = top@;
        let n = top.len();
        let mut i: usize = 0;
        let mut found: bool = false;
        let mut idx: usize = 0;
        while i < n
            invariant
                n == top@.len(),
                i <= n,
                found ==> idx < i && top@[idx as int].0@ == key@,
                !found ==> forall|m: int| 0 <= m < i ==> top@[m].0@ != key@,
            decreases n - i,
        {
            if !found && top[i].0 == key {
                found = true;
                idx = i;
            }
            i = i + 1;
        }
        let r: Option<V>;
        if found {
            proof {
                assert(frame_keys_distinct(old_top));
                lemma_frame_map_index(old_top, idx as int);
            }
            let p = top.remove(idx);
            top.insert(idx, (key, value));
            proof {
                assert(top@ =~= old_top.update(idx as int, (top@[idx as int].0, value)));
                assert(top@[idx as int].0@ == key@);
                lemma_frame_map_update(old_top, idx as int, top@[idx as int]);
                assert(forall|a: int, b: int|
                    0 <= a < b < top@.len() ==> top@[a].0@ != top@[b].0@) by {
                    assert(forall|m: int| 0 <= m < top@.len() ==> top@[m].0@ == old_top[m].0@);
                }
            }
            r = Some(p.1);
        } else {
            proof {
                lemma_frame_map_contains(old_top, key@);
                assert(!frame_map(old_top).dom().contains(key@));
            }
            top.push((key, value));
            proof {
                assert(forall|a: int, b: int|
                    0 <= a < b < top@.len() ==> top@[a].0@ != top@[b].0@) by {
                    assert(forall|m: int| 0 <= m < old_top.len() ==> top@[m] == old_top[m]);
                    assert(top@.last().0@ == key@);
                }
                assert(top@.drop_last() =~= old_top);
            }
            r = None;
        }
        frames.push(top);
        std::mem::swap(&mut frames, &mut self.frames);
        proof {
            assert(self@ =~~= env_declare(old(self)@, key@, value));
        }
        r
    }

    /// The number of currently open frames.
    pub fn depth(&self) -> (r: usize)
        ensures
            r == self@.len(),
    {
        self.frames.len()
    }
}

/// Lexical shadowing: declaring a name in a freshly entered frame hides any
/// outer binding of that name, and leaving the frame restores the stack, so
/// the outer binding becomes visible again.
pub proof fn lemma_shadowing<V>(env: Seq<Map<Seq<char>, V>>, name: Seq<char>, inner: V)
    ensures
        env_resolve(env_declare(env.push(Map::empty()), name, inner), name) == Some(inner),
        env_declare(env.push(Map::empty()), name, inner).drop_last() == env,
{
    let entered = env.push(Map::<Seq<char>, V>::empty());
    let declared = env_declare(entered, name, inner);
    assert(declared.last() == entered.last().insert(name, inner));
    assert(declared.last().dom().contains(name));
    assert(declared.last()[name] == inner);
    assert(declared.drop_last() =~= env);
}

} // verus!
