use vstd::prelude::*;
use crate::object::{obj_view, Object, Value};

verus! {

/// One binding of a name to a value in a frame.
#[derive(Debug)]
pub struct Binding {
    pub frame: usize,
    pub name: String,
    pub value: Object,
}

/// The environments of a run: an arena of frames, each with an optional
/// parent frame, and the bindings made in them. Frame 0 is the global frame.
/// A function value names the frame it was created in, so frames are shared
/// by reference and live as long as the arena.
#[derive(Debug)]
pub struct Env {
    bindings: Vec<Binding>,
    parents: Vec<Option<usize>>,
}

/// The meaning of an environment: its bindings in the order they were made
/// (frame, name, value), and each frame's parent.
pub struct Store {
    pub binds: Seq<(int, Seq<char>, Value)>,
    pub parents: Seq<Option<int>>,
}

pub open spec fn binding_view(b: Binding) -> (int, Seq<char>, Value) {
    (b.frame as int, b.name@, obj_view(b.value))
}

pub open spec fn parent_view(p: Option<usize>) -> Option<int> {
    match p {
        Some(x) => Some(x as int),
        None => None,
    }
}

/// The value most recently bound to `name` in frame `f` itself.
pub open spec fn scan(bs: Seq<(int, Seq<char>, Value)>, f: int, name: Seq<char>) -> Option<Value>
    decreases bs.len(),
{
    if bs.len() == 0 {
        None
    } else {
        let b = bs[bs.len() - 1];
        if b.0 == f && b.1 == name {
            Some(b.2)
        } else {
            scan(bs.subrange(0, bs.len() - 1), f, name)
        }
    }
}

/// The value of `name` seen from frame `f`: its own binding, or else the one
/// seen from its parent. Parents are older frames than their children.
pub open spec fn lookup(st: Store, f: int, name: Seq<char>) -> Option<Value>
    decreases f,
{
    match scan(st.binds, f, name) {
        Some(v) => Some(v),
        None => if 0 <= f < st.parents.len() && st.parents[f] is Some && 0 <= st.parents[f]->0
            < f {
            lookup(st, st.parents[f]->0, name)
        } else {
            None
        },
    }
}

/// `st` with `name` bound to `v` in frame `f`.
pub open spec fn bind(st: Store, f: int, name: Seq<char>, v: Value) -> Store {
    Store { binds: st.binds.push((f, name, v)), parents: st.parents }
}

/// `st` with one more frame, whose parent is `parent`.
pub open spec fn push_frame(st: Store, parent: int) -> Store {
    Store { binds: st.binds, parents: st.parents.push(Some(parent)) }
}

/// A fresh environment holding only the empty global frame.
pub fn new() -> (e: Env)
    ensures
        e.store() == (Store { binds: Seq::empty(), parents: seq![None] }),
{
    let mut parents: Vec<Option<usize>> = Vec::new();
    parents.push(None);
    let e = Env { bindings: Vec::new(), parents };
    proof {
        assert(e.store().binds =~= Seq::empty());
        assert(e.store().parents =~= seq![None]);
    }
    e
}

impl Env {
    pub closed spec fn store(&self) -> Store {
        Store {
            binds: self.bindings@.map_values(|b: Binding| binding_view(b)),
            parents: self.parents@.map_values(|p: Option<usize>| parent_view(p)),
        }
    }

    /// The number of frames.
    pub fn frames(&self) -> (n: usize)
        ensures
            n == self.store().parents.len(),
    {
        self.parents.len()
    }

    /// The value of `name` in the global frame.
    pub fn get(&self, name: String) -> (r: Option<&Object>)
        ensures
            match r {
                Some(o) => lookup(self.store(), 0, name@) == Some(obj_view(*o)),
                None => lookup(self.store(), 0, name@) is None,
            },
    {
        self.get_in(0, &name)
    }

    /// Binds `name` to `obj` in the global frame.
    pub fn set(&mut self, name: String, obj: Object)
        ensures
            final(self).store() == bind(old(self).store(), 0, name@, obj_view(obj)),
    {
        self.set_in(0, name, obj)
    }

    /// The value of `name` seen from frame `frame` (see `lookup`).
    pub fn get_in(&self, frame: usize, name: &String) -> (r: Option<&Object>)
        ensures
            match r {
                Some(o) => lookup(self.store(), frame as int, name@) == Some(obj_view(*o)),
                None => lookup(self.store(), frame as int, name@) is None,
            },
    {
        let ghost st = self.store();
        let mut f = frame;
        loop
            invariant
                st == self.store(),
                lookup(st, frame as int, name@) == lookup(st, f as int, name@),
            decreases f,
        {
            let mut i = self.bindings.len();
            proof {
                assert(st.binds.subrange(0, i as int) =~= st.binds);
            }
            while i > 0
                invariant
                    st == self.store(),
                    lookup(st, frame as int, name@) == lookup(st, f as int, name@),
                    i <= self.bindings@.len(),
                    scan(st.binds, f as int, name@) == scan(
                        st.binds.subrange(0, i as int),
                        f as int,
                        name@,
                    ),
                decreases i,
            {
                let ghost bs = st.binds.subrange(0, i as int);
                proof {
                    assert(bs.subrange(0, bs.len() - 1) =~= st.binds.subrange(0, i - 1));
                }
                let b = &self.bindings[i - 1];
                if b.frame == f && b.name == *name {
                    proof {
                        assert(bs[bs.len() - 1] == binding_view(self.bindings@[i - 1]));
                    }
                    return Some(&b.value);
                }
                i = i - 1;
            }
            proof {
                assert(st.binds.subrange(0, 0) =~= Seq::<(int, Seq<char>, Value)>::empty());
            }
            if f < self.parents.len() {
                match self.parents[f] {
                    Some(p) => {
                        if p < f {
                            f = p;
                        } else {
                            return None;
                        }
                    },
                    None => {
                        return None;
                    },
                }
            } else {
                return None;
            }
        }
    }

    /// Binds `name` to `obj` in frame `frame`; a later lookup from that frame
    /// sees this binding over any earlier one of the same name.
    pub fn set_in(&mut self, frame: usize, name: String, obj: Object)
        ensures
            final(self).store() == bind(old(self).store(), frame as int, name@, obj_view(obj)),
    {
        let ghost before = self.store();
        self.bindings.push(Binding { frame, name, value: obj });
        proof {
            assert(self.store().binds =~= before.binds.push(
                binding_view(self.bindings@[self.bindings@.len() - 1]),
            ));
            assert(self.store().parents =~= before.parents);
        }
    }

    /// Adds a frame whose parent is `parent` and returns its index.
    pub fn new_frame(&mut self, parent: usize) -> (f: usize)
        requires
            parent < old(self).store().parents.len(),
        ensures
            f == old(self).store().parents.len(),
            final(self).store() == push_frame(old(self).store(), parent as int),
    {
        let ghost before = self.store();
        let f = self.parents.len();
        self.parents.push(Some(parent));
        proof {
            assert(self.store().parents =~= before.parents.push(Some(parent as int)));
            assert(self.store().binds =~= before.binds);
        }
        f
    }
}

} // verus!
