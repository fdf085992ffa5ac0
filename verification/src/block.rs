//! Blocks of intermediate code: numbered blocks of locals, each local either
//! a void instruction or a valued one that later locals refer to by a
//! [`BlockLocalRef`].
use vstd::prelude::*;

verus! {

/// Identifies a block.
#[derive(Clone, Copy, PartialEq, Eq, Structural, Debug, Hash)]
pub struct BlockId(pub u64);

/// Names the valued local at position `local` of block `block`.
#[derive(Clone, Copy, PartialEq, Eq, Structural, Debug, Hash)]
pub struct BlockLocalRef {
    pub block: BlockId,
    pub local: usize,
}

/// Hands out block ids, each once.
#[derive(Debug)]
pub struct Ctx {
    pub next_id: u64,
}

/// A local of a block.
#[derive(Debug)]
pub enum BlockLocal<Void, Valued> {
    Void(Void),
    Valued(Valued),
}

/// A block being filled.
#[derive(Debug)]
pub struct BlockBuilder<VoidLocal, ValuedLocal> {
    pub id: BlockId,
    pub locals: Vec<BlockLocal<VoidLocal, ValuedLocal>>,
}

/// A finished block: its locals in order, and its terminal.
#[derive(Debug)]
pub struct Block<VoidLocal, ValuedLocal, Terminal> {
    pub id: BlockId,
    pub locals: Vec<BlockLocal<VoidLocal, ValuedLocal>>,
    pub terminal: Terminal,
}

impl Ctx {
    /// A context whose first block gets id 0.
    pub fn new() -> (r: Ctx)
        ensures
            r.next_id == 0,
    {
        Ctx { next_id: 0 }
    }

    /// A fresh block id: the ids handed out count up from 0.
    pub fn new_id(&mut self) -> (r: BlockId)
        requires
            old(self).next_id < u64::MAX,
        ensures
            r == BlockId(old(self).next_id),
            final(self).next_id == old(self).next_id + 1,
    {
        let v = self.next_id;
        self.next_id = self.next_id + 1;
        BlockId(v)
    }

    /// Starts a new, empty block with a fresh id.
    pub fn start_block<VoidLocal, ValuedLocal>(&mut self) -> (r: BlockBuilder<VoidLocal, ValuedLocal>)
        requires
            old(self).next_id < u64::MAX,
        ensures
            r.id == BlockId(old(self).next_id),
            r.locals@ == Seq::<BlockLocal<VoidLocal, ValuedLocal>>::empty(),
            final(self).next_id == old(self).next_id + 1,
    {
        let id = self.new_id();
        BlockBuilder { id, locals: Vec::new() }
    }
}

impl Ctx {
    /// A block with a fresh id, filled by `f` (which may make further
    /// blocks with this context) and ended with the terminal `f` returns.
    pub fn new_block<VoidLocal, ValuedLocal, Terminal, F>(&mut self, f: F) -> (r: Block<
        VoidLocal,
        ValuedLocal,
        Terminal,
    >) where F: FnOnce(&mut BlockBuilder<VoidLocal, ValuedLocal>, &mut Ctx) -> Terminal
        requires
            old(self).next_id < u64::MAX,
            forall|b: &mut BlockBuilder<VoidLocal, ValuedLocal>, c: &mut Ctx| f.requires((b, c)),
        ensures
            exists|b: &mut BlockBuilder<VoidLocal, ValuedLocal>, c: &mut Ctx|
                {
                    &&& b.id == BlockId(old(self).next_id)
                    &&& b.locals@ == Seq::<BlockLocal<VoidLocal, ValuedLocal>>::empty()
                    &&& c.next_id == old(self).next_id + 1
                    &&& #[trigger] f.ensures((b, c), r.terminal)
                    &&& r.id == final(b).id
                    &&& r.locals == final(b).locals
                    &&& *final(self) == *final(c)
                },
    {
        let mut b = self.start_block();
        let t = f(&mut b, self);
        b.finish(t)
    }

    /// As [`Ctx::new_block`], for an `f` that may fail: its error is
    /// returned in place of the block.
    pub fn try_new_block<VoidLocal, ValuedLocal, Terminal, E, F>(&mut self, f: F) -> (r: Result<
        Block<VoidLocal, ValuedLocal, Terminal>,
        E,
    >) where F: FnOnce(&mut BlockBuilder<VoidLocal, ValuedLocal>, &mut Ctx) -> Result<Terminal, E>
        requires
            old(self).next_id < u64::MAX,
            forall|b: &mut BlockBuilder<VoidLocal, ValuedLocal>, c: &mut Ctx| f.requires((b, c)),
        ensures
            exists|b: &mut BlockBuilder<VoidLocal, ValuedLocal>, c: &mut Ctx, t: Result<Terminal, E>|
                {
                    &&& b.id == BlockId(old(self).next_id)
                    &&& b.locals@ == Seq::<BlockLocal<VoidLocal, ValuedLocal>>::empty()
                    &&& c.next_id == old(self).next_id + 1
                    &&& #[trigger] f.ensures((b, c), t)
                    &&& *final(self) == *final(c)
                    &&& match t {
                        Ok(x) => r matches Ok(blk) && blk.id == final(b).id && blk.locals == final(b).locals
                            && blk.terminal == x,
                        Err(e) => r == Err::<Block<VoidLocal, ValuedLocal, Terminal>, E>(e),
                    }
                },
    {
        let mut b = self.start_block();
        match f(&mut b, self) {
            Ok(t) => Ok(b.finish(t)),
            Err(e) => Err(e),
        }
    }
}

impl<VoidLocal, ValuedLocal> BlockBuilder<VoidLocal, ValuedLocal> {
    /// Appends a void local.
    pub fn push_void_local(&mut self, local: VoidLocal)
        ensures
            final(self).id == old(self).id,
            final(self).locals@ == old(self).locals@.push(BlockLocal::Void(local)),
    {
        self.locals.push(BlockLocal::Void(local));
    }

    /// Appends a valued local and returns the reference that names it.
    pub fn push_valued_local(&mut self, local: ValuedLocal) -> (r: BlockLocalRef)
        ensures
            final(self).id == old(self).id,
            final(self).locals@ == old(self).locals@.push(BlockLocal::Valued(local)),
            r == (BlockLocalRef { block: old(self).id, local: old(self).locals@.len() as usize }),
    {
        let new_local_idx = self.locals.len();
        self.locals.push(BlockLocal::Valued(local));
        BlockLocalRef { block: self.id, local: new_local_idx }
    }

    /// The finished block, with `terminal` as its terminal.
    pub fn finish<Terminal>(self, terminal: Terminal) -> (r: Block<VoidLocal, ValuedLocal, Terminal>)
        ensures
            r.id == self.id,
            r.locals == self.locals,
            r.terminal == terminal,
    {
        Block { id: self.id, locals: self.locals, terminal }
    }
}

impl<VoidLocal, ValuedLocal, Terminal> Block<VoidLocal, ValuedLocal, Terminal> {
    /// The block's id.
    pub fn id(&self) -> (r: BlockId)
        ensures
            r == self.id,
    {
        self.id
    }

    /// Each local of the block, with the reference that names it.
    pub fn locals(&self) -> (r: Vec<(BlockLocalRef, &BlockLocal<VoidLocal, ValuedLocal>)>)
        ensures
            r@.len() == self.locals@.len(),
            forall|i: int|
                0 <= i < r@.len() ==> (#[trigger] r@[i]).0 == (BlockLocalRef { block: self.id, local: i as usize })
                    && *r@[i].1 == self.locals@[i],
    {
        let mut r: Vec<(BlockLocalRef, &BlockLocal<VoidLocal, ValuedLocal>)> = Vec::new();
        let mut i: usize = 0;
        while i < self.locals.len()
            invariant
                i <= self.locals@.len(),
                r@.len() == i,
                forall|k: int|
                    0 <= k < i ==> (#[trigger] r@[k]).0 == (BlockLocalRef { block: self.id, local: k as usize })
                        && *r@[k].1 == self.locals@[k],
            decreases self.locals@.len() - i,
        {
            r.push((BlockLocalRef { block: self.id, local: i }, &self.locals[i]));
            i = i + 1;
        }
        r
    }

    /// The same block with every void local, valued local and the terminal
    /// replaced by what `map_void`, `map_valued` and `map_terminal` compute
    /// from them.
    pub fn map<NewVoidLocal, NewValuedLocal, NewTerminal, MapVoid, MapValued, MapTerminal>(
        self,
        map_void: MapVoid,
        map_valued: MapValued,
        map_terminal: MapTerminal,
    ) -> (r: Block<NewVoidLocal, NewValuedLocal, NewTerminal>) where
        MapVoid: Fn(VoidLocal) -> NewVoidLocal,
        MapValued: Fn(ValuedLocal) -> NewValuedLocal,
        MapTerminal: FnOnce(Terminal) -> NewTerminal,

        requires
            forall|i: int|
                0 <= i < self.locals@.len() ==> match #[trigger] self.locals@[i] {
                    BlockLocal::Void(v) => map_void.requires((v,)),
                    BlockLocal::Valued(v) => map_valued.requires((v,)),
                },
            map_terminal.requires((self.terminal,)),
        ensures
            r.id == self.id,
            r.locals@.len() == self.locals@.len(),
            forall|i: int|
                0 <= i < self.locals@.len() ==> match (self.locals@[i], #[trigger] r.locals@[i]) {
                    (BlockLocal::Void(a), BlockLocal::Void(b)) => map_void.ensures((a,), b),
                    (BlockLocal::Valued(a), BlockLocal::Valued(b)) => map_valued.ensures((a,), b),
                    _ => false,
                },
            map_terminal.ensures((self.terminal,), r.terminal),
    {
        broadcast use vstd::std_specs::vec::axiom_spec_into_iter;

        let Block { id, locals, terminal } = self;
        let ghost orig = locals@;
        let mut out: Vec<BlockLocal<NewVoidLocal, NewValuedLocal>> = Vec::new();
        for l in it: locals.into_iter()
            invariant
                it.seq() == orig,
                out@.len() == it.index(),
                forall|i: int|
                    0 <= i < orig.len() ==> match #[trigger] orig[i] {
                        BlockLocal::Void(v) => map_void.requires((v,)),
                        BlockLocal::Valued(v) => map_valued.requires((v,)),
                    },
                forall|i: int|
                    0 <= i < it.index() ==> match (orig[i], #[trigger] out@[i]) {
                        (BlockLocal::Void(a), BlockLocal::Void(b)) => map_void.ensures((a,), b),
                        (BlockLocal::Valued(a), BlockLocal::Valued(b)) => map_valued.ensures((a,), b),
                        _ => false,
                    },
        {
            let ghost k = it.index();
            assert(l == orig[k]);
            let m = match l {
                BlockLocal::Void(v) => BlockLocal::Void(map_void(v)),
                BlockLocal::Valued(v) => BlockLocal::Valued(map_valued(v)),
            };
            out.push(m);
        }
        let t = map_terminal(terminal);
        Block { id, locals: out, terminal: t }
    }

    /// The block's locals and terminal.
    pub fn into_parts(self) -> (r: (Vec<BlockLocal<VoidLocal, ValuedLocal>>, Terminal))
        ensures
            r.0 == self.locals,
            r.1 == self.terminal,
    {
        (self.locals, self.terminal)
    }
}

} // verus!
