//! Middleware chains: zero or more middleware around one handler.
//!
//! A chain never runs anything itself, and it does not know how a middleware
//! or a handler is called: `M` and `H` are whatever the server runs. What the
//! chain decides is which of them is next. Running a chain means taking its
//! first step. Where that is a middleware, it comes with the continuation for
//! the rest of the chain, and what lies behind it runs only if the middleware
//! takes that continuation's step in turn.

use std::sync::Arc;
use vstd::prelude::*;

verus! {

/// A chain of middleware that ends in a handler.
#[derive(Clone, Debug)]
pub enum Chain<M, H> {
    /// The handler alone: nothing comes after it.
    End(H),
    /// One middleware in front of the rest of the chain.
    MidWrap(M, Arc<Chain<M, H>>),
}

/// What runs as one step of a chain.
pub enum Node<M, H> {
    Middleware(M),
    Handler(H),
}

/// The first step of a chain.
pub enum Step<'a, M, H> {
    /// Call this middleware and hand it the continuation.
    Middleware(&'a M, Next<'a, M, H>),
    /// Call the handler: the chain ends here.
    Handler(&'a H),
}

/// The continuation that a middleware is given: the rest of the chain, not
/// yet started.
pub struct Next<'a, M, H> {
    rest: &'a Chain<M, H>,
}

impl<M, H> Chain<M, H> {
    /// The middleware of the chain, outermost first.
    pub open spec fn middleware(self) -> Seq<M>
        decreases self,
    {
        match self {
            Chain::End(_) => Seq::empty(),
            Chain::MidWrap(mid, rest) => seq![mid] + rest.middleware(),
        }
    }

    /// The handler at the end of the chain.
    pub open spec fn handler(self) -> H
        decreases self,
    {
        match self {
            Chain::End(end) => end,
            Chain::MidWrap(_, rest) => rest.handler(),
        }
    }

    /// The chain of the given middleware, outermost first, around `end`.
    pub open spec fn of(mids: Seq<M>, end: H) -> Chain<M, H>
        decreases mids.len(),
    {
        if mids.len() == 0 {
            Chain::End(end)
        } else {
            Chain::MidWrap(mids[0], Arc::new(Chain::of(mids.drop_first(), end)))
        }
    }

    /// The node that the first step of the chain runs.
    pub open spec fn head(self) -> Node<M, H> {
        match self {
            Chain::End(end) => Node::Handler(end),
            Chain::MidWrap(mid, _) => Node::Middleware(mid),
        }
    }

    /// The nodes that run, in order, when the chain is started and each of the
    /// first `forwards` nodes takes its continuation while the one after them
    /// does not.
    pub open spec fn ran(self, forwards: nat) -> Seq<Node<M, H>>
        decreases forwards,
    {
        if forwards == 0 {
            seq![self.head()]
        } else {
            match self {
                Chain::End(end) => seq![Node::Handler(end)],
                Chain::MidWrap(mid, rest) => seq![Node::Middleware(mid)] + rest.ran(
                    (forwards - 1) as nat,
                ),
            }
        }
    }

    /// The chain that holds the handler alone.
    pub fn end(handler: H) -> (chain: Chain<M, H>)
        ensures
            chain == Chain::<M, H>::of(Seq::empty(), handler),
    {
        Chain::End(handler)
    }

    /// Puts `mid` in front of `rest`.
    pub fn wrap(mid: M, rest: Chain<M, H>) -> (chain: Chain<M, H>)
        ensures
            chain == Chain::MidWrap(mid, Arc::new(rest)),
            chain.middleware() == seq![mid] + rest.middleware(),
            chain.handler() == rest.handler(),
    {
        Chain::MidWrap(mid, Arc::new(rest))
    }

    /// Builds the chain of `mids` around `end`. The handler is wrapped first
    /// and the middleware are put around it from the last to the first, so
    /// that the first of `mids` is the outermost and runs first.
    pub fn build(mids: Vec<M>, end: H) -> (chain: Chain<M, H>)
        ensures
            chain == Chain::of(mids@, end),
            chain.middleware() == mids@,
            chain.handler() == end,
    {
        let ghost all = mids@;
        let mut mids = mids;
        let mut chain = Chain::end(end);
        assert(all.skip(all.len() as int) == Seq::<M>::empty());
        while mids.len() > 0
            invariant
                mids@ == all.take(mids@.len() as int),
                mids@.len() <= all.len(),
                chain == Chain::of(all.skip(mids@.len() as int), end),
            decreases mids.len(),
        {
            let ghost n = mids@.len() as int;
            let mid = mids.pop().unwrap();
            assert(all.skip(n - 1).drop_first() == all.skip(n));
            assert(all.take(n).drop_last() == all.take(n - 1));
            chain = Chain::wrap(mid, chain);
        }
        assert(all.skip(0) == all);
        proof {
            Self::lemma_of(all, end);
        }
        chain
    }

    /// The first step of running the chain. The node of this step is what
    /// runs first; what runs after it is what the continuation runs, and only
    /// where the step has one and it is taken.
    pub fn step(&self) -> (step: Step<'_, M, H>)
        ensures
            match step {
                Step::Handler(end) => *self == Chain::<M, H>::End(*end),
                Step::Middleware(mid, next) => *self == Chain::MidWrap(*mid, Arc::new(next.chain())),
            },
            step.node() == self.head(),
            forall|forwards: nat| #[trigger] self.ran(forwards) == step.ran(forwards),
    {
        match self {
            Chain::End(end) => Step::Handler(end),
            Chain::MidWrap(mid, rest) => Step::Middleware(mid, Next { rest: &**rest }),
        }
    }

    /// A chain built of middleware and a handler holds just these.
    pub proof fn lemma_of(mids: Seq<M>, end: H)
        ensures
            Chain::of(mids, end).middleware() == mids,
            Chain::of(mids, end).handler() == end,
        decreases mids.len(),
    {
        if mids.len() > 0 {
            Self::lemma_of(mids.drop_first(), end);
            assert(seq![mids[0]] + mids.drop_first() == mids);
        }
    }

    /// A middleware that does not take its continuation stops the chain: when
    /// the middleware at index `forwards` is the first not to take it, the
    /// nodes that ran are the middleware up to and including that one, in
    /// order, and neither a later middleware nor the handler is among them.
    /// The last node that ran is that middleware, so the reply that travels
    /// back is its own; where it is the first of the chain, nothing else ran.
    pub proof fn lemma_short_circuit(&self, forwards: nat)
        requires
            forwards < self.middleware().len(),
        ensures
            self.ran(forwards).len() == forwards + 1,
            forall|i: int|
                0 <= i <= forwards ==> self.ran(forwards)[i] == Node::<M, H>::Middleware(
                    self.middleware()[i],
                ),
            self.ran(forwards).last() == Node::<M, H>::Middleware(self.middleware()[forwards as int]),
            forwards == 0 ==> self.ran(forwards) == seq![self.head()],
        decreases forwards,
    {
        match self {
            Chain::End(_) => {},
            Chain::MidWrap(mid, rest) => {
                if forwards > 0 {
                    rest.lemma_short_circuit((forwards - 1) as nat);
                    assert forall|i: int| 0 <= i <= forwards implies self.ran(forwards)[i]
                        == Node::<M, H>::Middleware(self.middleware()[i]) by {
                        if i > 0 {
                            assert(self.ran(forwards)[i] == rest.ran((forwards - 1) as nat)[i - 1]);
                            assert(self.middleware()[i] == rest.middleware()[i - 1]);
                        }
                    }
                }
            },
        }
    }

    /// Where every middleware takes its continuation, all of them run in
    /// order, outermost first, and the handler runs last.
    pub proof fn lemma_full_run(&self)
        ensures
            self.ran(self.middleware().len()).len() == self.middleware().len() + 1,
            forall|i: int|
                0 <= i < self.middleware().len() ==> self.ran(self.middleware().len())[i]
                    == Node::<M, H>::Middleware(self.middleware()[i]),
            self.ran(self.middleware().len()).last() == Node::<M, H>::Handler(self.handler()),
        decreases self,
    {
        match self {
            Chain::End(_) => {},
            Chain::MidWrap(mid, rest) => {
                rest.lemma_full_run();
                let n = self.middleware().len();
                assert(rest.middleware().len() == n - 1);
                assert(self.ran(n) == seq![Node::<M, H>::Middleware(*mid)] + rest.ran(
                    (n - 1) as nat,
                ));
                assert forall|i: int| 0 <= i < n implies self.ran(n)[i] == Node::<M, H>::Middleware(
                    self.middleware()[i],
                ) by {
                    if i > 0 {
                        assert(self.ran(n)[i] == rest.ran((n - 1) as nat)[i - 1]);
                        assert(self.middleware()[i] == rest.middleware()[i - 1]);
                    }
                }
            },
        }
    }
}

impl<'a, M, H> Step<'a, M, H> {
    /// The node that this step runs.
    pub open spec fn node(self) -> Node<M, H> {
        match self {
            Step::Middleware(mid, _) => Node::Middleware(*mid),
            Step::Handler(end) => Node::Handler(*end),
        }
    }

    /// The nodes that run, in order, from this step on when each of the
    /// first `forwards` nodes takes its continuation while the one after them
    /// does not: the node of this step, and behind it what the continuation
    /// runs where it is taken.
    pub open spec fn ran(self, forwards: nat) -> Seq<Node<M, H>> {
        match self {
            Step::Middleware(mid, next) => if forwards == 0 {
                seq![Node::Middleware(*mid)]
            } else {
                seq![Node::Middleware(*mid)] + next.chain().ran((forwards - 1) as nat)
            },
            Step::Handler(end) => seq![Node::Handler(*end)],
        }
    }
}

impl<'a, M, H> Next<'a, M, H> {
    /// The chain that this continuation starts.
    pub closed spec fn chain(self) -> Chain<M, H> {
        *self.rest
    }

    /// Takes the continuation: the first step of the rest of the chain.
    pub fn run(self) -> (step: Step<'a, M, H>)
        ensures
            match step {
                Step::Handler(end) => self.chain() == Chain::<M, H>::End(*end),
                Step::Middleware(mid, next) => self.chain() == Chain::MidWrap(
                    *mid,
                    Arc::new(next.chain()),
                ),
            },
            step.node() == self.chain().head(),
            forall|forwards: nat| #[trigger] self.chain().ran(forwards) == step.ran(forwards),
    {
        self.rest.step()
    }
}

} // verus!
