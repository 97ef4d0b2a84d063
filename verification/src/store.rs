//! The environment chain: a stack of lexical scopes, innermost scope last.
//!
//! Each scope maps symbol names to values. A lookup searches the innermost
//! scope first and falls back outward, so a child scope may shadow, but
//! never overwrite, a binding of an enclosing scope. Binding writes go to
//! the innermost scope only.

use vstd::prelude::*;

use crate::lsymc::{Lsymc, SymV};

verus! {

/// The model of one scope: name/value pairs in binding order (a later pair
/// for the same name shadows an earlier one).
pub type ScopeV = Seq<(Seq<char>, SymV)>;

/// The model of a whole environment chain: scopes from outermost to
/// innermost.
pub type StoreV = Seq<ScopeV>;

/// The binding a single scope gives a name: the last pair with that name.
pub open spec fn scope_find(sc: ScopeV, name: Seq<char>) -> Option<SymV>
    decreases sc.len(),
{
    if sc.len() == 0 {
        None
    } else if sc.last().0 == name {
        Some(sc.last().1)
    } else {
        scope_find(sc.drop_last(), name)
    }
}

/// The binding an environment chain gives a name: the innermost scope that
/// binds it wins; `None` when no scope binds it.
pub open spec fn store_find(ss: StoreV, name: Seq<char>) -> Option<SymV>
    decreases ss.len(),
{
    if ss.len() == 0 {
        None
    } else {
        match scope_find(ss.last(), name) {
            Some(v) => Some(v),
            None => store_find(ss.drop_last(), name),
        }
    }
}

/// The model of a fresh environment: one empty scope.
pub open spec fn empty_store() -> StoreV {
    seq![Seq::<(Seq<char>, SymV)>::empty()]
}

/// The model of an `Option<Lsymc>`.
pub open spec fn opt_sym(o: Option<Lsymc>) -> Option<SymV> {
    match o {
        Some(v) => Some(v@),
        None => None,
    }
}

/// An environment chain. The root scope is created once and never popped;
/// a binding form pushes a child scope for its body and pops it after.
pub struct Store {
    scopes: Vec<Vec<(String, Lsymc)>>,
}

pub open spec fn scope_model(sc: Seq<(String, Lsymc)>) -> ScopeV {
    sc.map_values(|e: (String, Lsymc)| (e.0@, e.1@))
}

impl View for Store {
    type V = StoreV;

    closed spec fn view(&self) -> StoreV {
        self.scopes@.map_values(|sc: Vec<(String, Lsymc)>| scope_model(sc@))
    }
}

impl Store {
    /// A well-formed environment always has its root scope.
    pub open spec fn wf(&self) -> bool {
        self@.len() >= 1
    }

    /// A fresh environment: a single empty scope and no parent.
    pub fn new() -> (r: Store)
        ensures
            r@ == empty_store(),
            r.wf(),
    {
        let mut scopes: Vec<Vec<(String, Lsymc)>> = Vec::new();
        scopes.push(Vec::new());
        let r = Store { scopes };
        proof {
            assert(r@ =~~= empty_store());
        }
        r
    }

    /// Binds `name` to `v` in the innermost scope only; enclosing scopes are
    /// untouched, and an earlier binding of the same name there is shadowed.
    pub fn set(&mut self, name: &str, v: Lsymc)
        requires
            old(self).wf(),
        ensures
            final(self)@ == old(self)@.update(
                old(self)@.len() - 1,
                old(self)@.last().push((name@, v@)),
            ),
            final(self).wf(),
    {
        let mut sc = self.scopes.pop().unwrap();
        let ghost sc0 = sc@;
        sc.push((name.to_owned(), v));
        self.scopes.push(sc);
        proof {
            assert(scope_model(sc@) =~= scope_model(sc0).push((name@, v@)));
            assert(self@ =~~= old(self)@.update(old(self)@.len() - 1, old(self)@.last().push((name@, v@))));
        }
    }

    /// Opens a fresh, empty child scope whose fallback is the present chain.
    pub fn extend(&mut self)
        ensures
            final(self)@ == old(self)@.push(Seq::empty()),
    {
        self.scopes.push(Vec::new());
        proof {
            assert(self@ =~~= old(self)@.push(Seq::<(Seq<char>, SymV)>::empty()));
        }
    }

    /// Closes the innermost scope, discarding its bindings; the enclosing
    /// chain is exactly what it was before that scope was opened.
    pub fn retract(&mut self)
        requires
            old(self)@.len() >= 2,
        ensures
            final(self)@ == old(self)@.drop_last(),
            final(self).wf(),
    {
        let _ = self.scopes.pop();
        proof {
            assert(self@ =~= old(self)@.drop_last());
        }
    }

    /// Copies every binding of `data`'s innermost scope into this chain's
    /// innermost scope, in order, as one batch install.
    pub fn update(&mut self, data: &Store)
        requires
            old(self).wf(),
            data.wf(),
        ensures
            final(self)@ == old(self)@.update(
                old(self)@.len() - 1,
                old(self)@.last() + data@.last(),
            ),
            final(self).wf(),
    {
        let src = &data.scopes[data.scopes.len() - 1];
        let mut sc = self.scopes.pop().unwrap();
        let ghost sc0 = sc@;
        proof {
            assert(scope_model(src@).take(0) =~= Seq::<(Seq<char>, SymV)>::empty());
            assert(scope_model(sc@) =~= scope_model(sc0) + scope_model(src@).take(0));
        }
        let mut k: usize = 0;
        #[verifier::loop_isolation(false)]
        while k < src.len()
            invariant
                k <= src.len(),
                sc@.len() == sc0.len() + k,
                scope_model(sc@) == scope_model(sc0) + scope_model(src@).take(k as int),
            decreases src.len() - k,
        {
            let (n, v) = &src[k];
            let pn = n.clone();
            let pv = v.clone();
            let ghost prev = sc@;
            sc.push((pn, pv));
            proof {
                assert(scope_model(sc@) =~= scope_model(prev).push((src@[k as int].0@, src@[k as int].1@)));
                assert(scope_model(src@).take(k + 1) =~= scope_model(src@).take(k as int).push(
                    (src@[k as int].0@, src@[k as int].1@),
                ));
                assert(scope_model(sc@) =~= scope_model(sc0) + scope_model(src@).take(k + 1));
            }
            k = k + 1;
        }
        self.scopes.push(sc);
        proof {
            assert(scope_model(src@).take(src@.len() as int) =~= scope_model(src@));
            assert(self@ =~~= old(self)@.update(old(self)@.len() - 1, old(self)@.last() + data@.last()));
        }
    }

    /// Looks `name` up through the chain, innermost scope first, as
    /// [`store_find`] states; a hit is returned as a copy.
    pub fn get(&self, name: &str) -> (r: Option<Lsymc>)
        ensures
            opt_sym(r) == store_find(self@, name@),
    {
        let needle: String = name.to_owned();
        let mut si = self.scopes.len();
        proof {
            assert(self@.take(self.scopes@.len() as int) =~= self@);
        }
        #[verifier::loop_isolation(false)]
        while si > 0
            invariant
                si <= self.scopes.len(),
                store_find(self@, name@) == store_find(self@.take(si as int), name@),
            decreases si,
        {
            si = si - 1;
            let sc = &self.scopes[si];
            let ghost scv = scope_model(sc@);
            let mut ei = sc.len();
            proof {
                assert(scv.take(sc@.len() as int) =~= scv);
            }
            #[verifier::loop_isolation(false)]
            while ei > 0
                invariant
                    ei <= sc.len(),
                    scope_find(scv, name@) == scope_find(scv.take(ei as int), name@),
                decreases ei,
            {
                ei = ei - 1;
                proof {
                    assert(scv.take(ei + 1).drop_last() =~= scv.take(ei as int));
                    assert(scv.take(ei + 1).last() == scv[ei as int]);
                }
                let (n, v) = &sc[ei];
                if *n == needle {
                    let hit = v.clone();
                    proof {
                        assert(self@.take(si + 1).last() == scv);
                        assert(store_find(self@, name@) == Some(hit@));
                    }
                    return Some(hit);
                }
            }
            proof {
                assert(scv.take(0) =~= Seq::<(Seq<char>, SymV)>::empty());
                assert(self@.take(si + 1).drop_last() =~= self@.take(si as int));
                assert(self@.take(si + 1).last() == scv);
            }
        }
        proof {
            assert(self@.take(0) =~= Seq::<ScopeV>::empty());
        }
        None
    }
}

/// Shadowing law: if a chain binds `name` to `outer`, then after opening a
/// child scope and binding `name` to `inner` there, a lookup sees `inner`;
/// and closing the child scope leaves the chain, and so the outer binding,
/// exactly as it was.
pub proof fn lemma_shadowing(ss: StoreV, name: Seq<char>, outer: SymV, inner: SymV)
    requires
        store_find(ss, name) == Some(outer),
    ensures
        store_find(ss.push(seq![(name, inner)]), name) == Some(inner),
        ss.push(seq![(name, inner)]).drop_last() == ss,
{
    let child = ss.push(seq![(name, inner)]);
    assert(child.last() == seq![(name, inner)]);
    assert(scope_find(seq![(name, inner)], name) == Some(inner));
    assert(child.drop_last() =~= ss);
}

} // verus!
