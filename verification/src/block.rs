//! Basic blocks and the store that holds them.
use vstd::prelude::*;
use std::collections::BTreeMap;
use crate::inst::{Inst, InstList};
use crate::itype::{IType, OpType, Slot};
use crate::maps::{is_key_list, key_list, sorted_keys};

verus! {

/// For each operation class, the latest instruction of that class that a
/// new instruction of the block can link to.
#[derive(Debug, Clone, Copy, PartialEq)]
pub struct OpMap {
    pub add: Option<usize>,
    pub sub: Option<usize>,
    pub mul: Option<usize>,
    pub div: Option<usize>,
}

impl OpMap {
    /// The entry of one class.
    pub open spec fn spec_get(self, op: OpType) -> Option<usize> {
        match op {
            OpType::Add => self.add,
            OpType::Sub => self.sub,
            OpType::Mul => self.mul,
            OpType::Div => self.div,
        }
    }

    /// The map with the entry of one class set.
    pub open spec fn spec_set(self, op: OpType, inst: usize) -> OpMap {
        match op {
            OpType::Add => OpMap { add: Some(inst), ..self },
            OpType::Sub => OpMap { sub: Some(inst), ..self },
            OpType::Mul => OpMap { mul: Some(inst), ..self },
            OpType::Div => OpMap { div: Some(inst), ..self },
        }
    }

    /// What the map holds once an instruction of kind `itype` was recorded.
    pub open spec fn record(self, itype: IType, inst: usize) -> OpMap {
        match itype.op_class() {
            Some(op) => self.spec_set(op, inst),
            None => self,
        }
    }

    /// The entry that an instruction of kind `itype` links to.
    pub open spec fn lookup(self, itype: IType) -> Option<usize> {
        match itype.op_class() {
            Some(op) => self.spec_get(op),
            None => None,
        }
    }

    pub fn new() -> (r: OpMap)
        ensures
            r == (OpMap { add: None, sub: None, mul: None, div: None }),
    {
        OpMap { add: None, sub: None, mul: None, div: None }
    }

    pub fn get(&self, op: OpType) -> (r: Option<usize>)
        ensures
            r == self.spec_get(op),
    {
        match op {
            OpType::Add => self.add,
            OpType::Sub => self.sub,
            OpType::Mul => self.mul,
            OpType::Div => self.div,
        }
    }

    pub fn insert(&mut self, op: OpType, inst: usize)
        ensures
            *final(self) == old(self).spec_set(op, inst),
    {
        match op {
            OpType::Add => {
                self.add = Some(inst);
            },
            OpType::Sub => {
                self.sub = Some(inst);
            },
            OpType::Mul => {
                self.mul = Some(inst);
            },
            OpType::Div => {
                self.div = Some(inst);
            },
        }
    }
}

/// What a block holds, as mathematical values.
pub ghost struct BlockView {
    pub id: usize,
    pub dom: Option<usize>,
    pub insts: Seq<usize>,
    pub next: (Option<usize>, Option<usize>),
    pub var_map: Map<usize, Option<Slot>>,
    pub op_map: OpMap,
    pub phis: Map<usize, usize>,
}

/// A basic block.
///
/// `var_map` gives each known variable its current definition: a missing
/// key is a variable that was never declared here, a key with `None` one
/// that was declared and not yet assigned.
#[derive(Debug, PartialEq)]
pub struct Block {
    pub id: usize,
    pub dom: Option<usize>,
    pub insts: Vec<usize>,
    pub next: (Option<usize>, Option<usize>),
    pub var_map: BTreeMap<usize, Option<Slot>>,
    pub op_map: OpMap,
    pub phis: BTreeMap<usize, usize>,
}

impl Clone for Block {
    fn clone(&self) -> (r: Self)
        ensures
            r@ == self@,
    {
        let r = Block {
            id: self.id,
            dom: self.dom,
            insts: self.insts.clone(),
            next: (self.next.0, self.next.1),
            var_map: self.var_map.clone(),
            op_map: self.op_map,
            phis: self.phis.clone(),
        };
        assert(r.insts@ =~= self.insts@);
        r
    }
}

impl View for Block {
    type V = BlockView;

    open spec fn view(&self) -> BlockView {
        BlockView {
            id: self.id,
            dom: self.dom,
            insts: self.insts@,
            next: self.next,
            var_map: self.var_map@,
            op_map: self.op_map,
            phis: self.phis@,
        }
    }
}

/// The first of `insts` that is not an assignment marker: the first
/// instruction that the block emits.
pub open spec fn first_emitted(insts: Seq<usize>, store: Seq<Inst>) -> Option<usize>
    decreases insts.len(),
{
    if insts.len() == 0 {
        None
    } else if 0 <= insts[0] < store.len() && !(store[insts[0] as int].itype is Assignment) {
        Some(insts[0])
    } else {
        first_emitted(insts.drop_first(), store)
    }
}

/// `s` without the first occurrence of `x`.
pub open spec fn remove_first(s: Seq<usize>, x: usize) -> Seq<usize>
    decreases s.len(),
{
    if s.len() == 0 {
        s
    } else if s[0] == x {
        s.drop_first()
    } else {
        seq![s[0]] + remove_first(s.drop_first(), x)
    }
}

/// Removing an instruction that a list does not hold leaves the list as it
/// is.
pub proof fn lemma_remove_first_absent(s: Seq<usize>, x: usize)
    requires
        !s.contains(x),
    ensures
        remove_first(s, x) == s,
    decreases s.len(),
{
    if s.len() > 0 {
        assert(s[0] != x);
        let t = s.drop_first();
        assert(!t.contains(x)) by {
            if t.contains(x) {
                let j = choose|j: int| 0 <= j < t.len() && t[j] == x;
                assert(s[j + 1] == x);
            }
        }
        lemma_remove_first_absent(t, x);
        assert(seq![s[0]] + t =~= s);
    }
}

/// The definition of a variable once the variable `renamed_var` stands for
/// `phi`: a definition that was read from `renamed_var` becomes `phi`.
pub open spec fn redirect_def(def: Option<Slot>, renamed_var: usize, phi: usize) -> Option<Slot> {
    match def {
        Some((_, Some(v))) => if v == renamed_var {
            Some((phi, Some(renamed_var)))
        } else {
            def
        },
        _ => def,
    }
}

impl BlockView {
    /// The instruction that currently defines `var`, if it is bound.
    pub open spec fn var_inst(self, var: usize) -> Option<usize> {
        if self.var_map.contains_key(var) {
            match self.var_map[var] {
                Some(slot) => Some(slot.0),
                None => None,
            }
        } else {
            None
        }
    }

    /// The phi that the block owns for `var`.
    pub open spec fn phi(self, var: usize) -> Option<usize> {
        if self.phis.contains_key(var) {
            Some(self.phis[var])
        } else {
            None
        }
    }

    /// The block once `inst`, of kind `itype`, was emitted into it.
    pub open spec fn emit(self, inst: usize, itype: IType) -> BlockView {
        BlockView {
            insts: self.insts.push(inst),
            op_map: self.op_map.record(itype, inst),
            ..self
        }
    }

    /// The block once it owns `phi` for `var`: the phi and its assignment
    /// marker stand in front of the other instructions, and `var` is
    /// defined by the phi.
    pub open spec fn seed_phi(
        self,
        var: usize,
        phi: usize,
        dep_var: Option<usize>,
        assignment: usize,
    ) -> BlockView {
        BlockView {
            phis: self.phis.insert(var, phi),
            var_map: self.var_map.insert(var, Some((phi, dep_var))),
            insts: seq![phi, assignment] + self.insts,
            ..self
        }
    }
}

impl Block {
    /// An empty block without a dominator.
    pub fn new(id: usize) -> (r: Block)
        ensures
            r@ == (BlockView {
                id,
                dom: None,
                insts: Seq::empty(),
                next: (None, None),
                var_map: Map::empty(),
                op_map: OpMap { add: None, sub: None, mul: None, div: None },
                phis: Map::empty(),
            }),
    {
        Block {
            id,
            dom: None,
            insts: Vec::new(),
            next: (None, None),
            var_map: BTreeMap::new(),
            op_map: OpMap::new(),
            phis: BTreeMap::new(),
        }
    }

    /// An empty block dominated by `prev`: it starts from a copy of
    /// `prev`'s variable definitions and operation classes.
    pub fn from(id: usize, prev: &Block) -> (r: Block)
        ensures
            r@ == (BlockView {
                id,
                dom: Some(prev.id),
                insts: Seq::empty(),
                next: (None, None),
                var_map: prev@.var_map,
                op_map: prev@.op_map,
                phis: Map::empty(),
            }),
    {
        Block {
            id,
            dom: Some(prev.id),
            insts: Vec::new(),
            next: (None, None),
            var_map: prev.var_map.clone(),
            op_map: prev.op_map,
            phis: BTreeMap::new(),
        }
    }

    /// The instruction that defines `id`; `None` when the variable is
    /// unknown here or not yet assigned.
    pub fn get_var_inst(&self, id: usize) -> (r: Option<usize>)
        ensures
            r == self@.var_inst(id),
    {
        match self.var_map.get(&id) {
            Some(def) => match def {
                Some(slot) => Some(slot.0),
                None => None,
            },
            None => None,
        }
    }

    /// Whether the variable is known here, assigned or not.
    pub fn is_declared(&self, id: usize) -> (r: bool)
        ensures
            r == self@.var_map.contains_key(id),
    {
        self.var_map.get(&id).is_some()
    }

    /// The definition of a variable with its tag; `None` when the variable
    /// is unknown here or not yet assigned.
    pub fn get_var_def(&self, id: usize) -> (r: Option<Slot>)
        ensures
            r == (if self@.var_map.contains_key(id) {
                self@.var_map[id]
            } else {
                None
            }),
    {
        match self.var_map.get(&id) {
            Some(def) => *def,
            None => None,
        }
    }

    /// The instruction that a new instruction of kind `itype` links to.
    pub fn get_dom_inst(&self, itype: IType) -> (r: Option<usize>)
        ensures
            r == self@.op_map.lookup(itype),
    {
        match OpType::try_from(itype) {
            Ok(op) => self.op_map.get(op),
            Err(_) => None,
        }
    }

    pub fn get_last_inst(&self) -> (r: Option<usize>)
        ensures
            r == (if self@.insts.len() > 0 {
                Some(self@.insts.last())
            } else {
                None
            }),
    {
        if self.insts.len() > 0 {
            Some(self.insts[self.insts.len() - 1])
        } else {
            None
        }
    }

    /// The first instruction of the block that is not an assignment marker.
    pub fn get_first_inst(&self, inst_list: &InstList) -> (r: Option<usize>)
        requires
            forall|i: int| 0 <= i < self@.insts.len() ==> self@.insts[i] < inst_list.instructions@.len(),
        ensures
            r == first_emitted(self@.insts, inst_list.instructions@),
    {
        let n: usize = self.insts.len();
        let mut k: usize = 0;
        assert(self@.insts.skip(0) =~= self@.insts);
        while k < n
            invariant
                k <= n,
                n == self@.insts.len(),
                forall|i: int|
                    0 <= i < self@.insts.len() ==> self@.insts[i] < inst_list.instructions@.len(),
                first_emitted(self@.insts, inst_list.instructions@) == first_emitted(
                    self@.insts.skip(k as int),
                    inst_list.instructions@,
                ),
            decreases n - k,
        {
            let inst_id: usize = self.insts[k];
            let ghost rest = self@.insts.skip(k as int);
            assert(rest[0] == inst_id);
            assert(rest.drop_first() == self@.insts.skip(k + 1));
            match inst_list.get(inst_id).itype() {
                IType::Assignment { .. } => {},
                _ => {
                    return Some(inst_id);
                },
            }
            k = k + 1;
        }
        None
    }

    pub fn get_next(&self) -> (r: (Option<usize>, Option<usize>))
        ensures
            r == self@.next,
    {
        self.next
    }

    /// Binds `var` to the instruction `inst`, read from `dep_var`.
    pub fn assign_var(&mut self, var: usize, inst: usize, dep_var: Option<usize>)
        ensures
            final(self)@ == (BlockView {
                var_map: old(self)@.var_map.insert(var, Some((inst, dep_var))),
                ..old(self)@
            }),
    {
        self.var_map.insert(var, Some((inst, dep_var)));
    }

    /// Declares `var` without a value.
    pub fn declare_var(&mut self, var: usize)
        ensures
            final(self)@ == (BlockView {
                var_map: old(self)@.var_map.insert(var, None),
                ..old(self)@
            }),
    {
        self.var_map.insert(var, None);
    }

    /// Appends an instruction to the block and records it as the latest of
    /// its operation class.
    pub fn add_inst(&mut self, inst: usize, itype: IType) -> (r: usize)
        ensures
            r == inst,
            final(self)@ == old(self)@.emit(inst, itype),
    {
        self.insts.push(inst);
        match OpType::try_from(itype) {
            Ok(optype) => {
                self.op_map.insert(optype, inst);
            },
            Err(_) => {},
        }
        inst
    }

    pub fn set_fall_through(&mut self, block: usize)
        ensures
            final(self)@ == (BlockView { next: (Some(block), old(self)@.next.1), ..old(self)@ }),
    {
        self.next.0 = Some(block);
    }

    pub fn set_follow(&mut self, block: usize)
        ensures
            final(self)@ == (BlockView { next: (old(self)@.next.0, Some(block)), ..old(self)@ }),
    {
        self.next.1 = Some(block);
    }

    pub fn id(&self) -> (r: usize)
        ensures
            r == self@.id,
    {
        self.id
    }

    pub fn dom(&self) -> (r: Option<usize>)
        ensures
            r == self@.dom,
    {
        self.dom
    }

    /// The phi that the block owns for `var`.
    pub fn get_phi(&self, var: usize) -> (r: Option<usize>)
        ensures
            r == self@.phi(var),
    {
        match self.phis.get(&var) {
            Some(phi) => Some(*phi),
            None => None,
        }
    }

    /// Gives the block the phi `phi` for `var`, with its assignment marker.
    pub fn add_phi(&mut self, var: usize, phi: usize, dep_var: Option<usize>, assignment: usize)
        ensures
            final(self)@ == old(self)@.seed_phi(var, phi, dep_var, assignment),
    {
        self.phis.insert(var, phi);
        self.var_map.insert(var, Some((phi, dep_var)));
        self.insts.insert(0, assignment);
        self.insts.insert(0, phi);
        assert(self.insts@ =~= seq![phi, assignment] + old(self).insts@);
    }

    /// Puts the block's phis in front of its instructions, in the order of
    /// their variables.
    pub fn resolve_phis(&mut self)
        ensures
            phis_resolved(old(self)@, final(self)@),
    {
        let keys = sorted_keys(&self.phis);
        let n: usize = keys.len();
        let mut k: usize = n;
        while k > 0
            invariant
                k <= n,
                n == keys@.len(),
                is_key_list(keys@, old(self)@.phis),
                self@ == (BlockView {
                    insts: keys@.skip(k as int).map_values(|k: usize| old(self)@.phis[k]) + old(self)@.insts,
                    ..old(self)@
                }),
            decreases k,
        {
            k = k - 1;
            let key: usize = keys[k];
            assert(keys@.to_set().contains(key));
            let phi: usize = match self.phis.get(&key) {
                Some(phi) => *phi,
                None => 0,
            };
            self.insts.insert(0, phi);
            assert(self.insts@ =~= keys@.skip(k as int).map_values(|k: usize| old(self)@.phis[k])
                + old(self)@.insts) by {
                assert(keys@.skip(k as int) =~= seq![key] + keys@.skip(k + 1));
            }
        }
        assert(keys@.skip(0) == keys@);
    }

    /// Whether the block lists the instruction `inst`.
    pub fn lists(&self, inst: usize) -> (r: bool)
        ensures
            r == self@.insts.contains(inst),
    {
        let n: usize = self.insts.len();
        let mut k: usize = 0;
        while k < n
            invariant
                k <= n,
                n == self@.insts.len(),
                forall|i: int| 0 <= i < k ==> self@.insts[i] != inst,
            decreases n - k,
        {
            if self.insts[k] == inst {
                return true;
            }
            k = k + 1;
        }
        false
    }

    /// Removes the first occurrence of `inst` from the block's
    /// instructions. The block must list `inst`.
    pub fn delete_inst(&mut self, inst: usize)
        requires
            old(self)@.insts.contains(inst),
        ensures
            final(self)@ == (BlockView {
                insts: remove_first(old(self)@.insts, inst),
                ..old(self)@
            }),
    {
        let n: usize = self.insts.len();
        let mut k: usize = 0;
        assert(self@.insts.skip(0) =~= self@.insts);
        assert(self@.insts.take(0) + self@.insts =~= self@.insts);
        while k < n
            invariant
                k <= n,
                n == self@.insts.len(),
                *self == *old(self),
                forall|i: int| 0 <= i < k ==> self@.insts[i] != inst,
                remove_first(self@.insts, inst) == self@.insts.take(k as int) + remove_first(
                    self@.insts.skip(k as int),
                    inst,
                ),
            decreases n - k,
        {
            let ghost rest = self@.insts.skip(k as int);
            assert(rest[0] == self@.insts[k as int]);
            assert(rest.drop_first() == self@.insts.skip(k + 1));
            if self.insts[k] == inst {
                self.insts.remove(k);
                assert(self@.insts =~= old(self)@.insts.take(k as int) + rest.drop_first());
                return ;
            }
            assert(self@.insts.take(k + 1) =~= self@.insts.take(k as int) + seq![rest[0]]);
            assert(self@.insts.take(k as int) + (seq![rest[0]] + remove_first(
                rest.drop_first(),
                inst,
            )) =~= self@.insts.take(k + 1) + remove_first(self@.insts.skip(k + 1), inst));
            k = k + 1;
        }
        assert(self@.insts.skip(n as int) =~= Seq::<usize>::empty());
        assert(self@.insts.take(n as int) =~= self@.insts);
        assert(self@.insts.take(n as int) + Seq::<usize>::empty() =~= self@.insts);
    }

    /// The block's instructions in emission order.
    pub fn iter(&self) -> (r: &[usize])
        ensures
            r@ == self@.insts,
    {
        self.insts.as_slice()
    }

    /// Redirects to `phi` the definition of every variable whose value was
    /// read from `renamed_var`.
    pub fn update_var(&mut self, renamed_var: usize, phi: usize)
        ensures
            final(self)@ == (BlockView {
                var_map: old(self)@.var_map.map_values(
                    |def: Option<Slot>| redirect_def(def, renamed_var, phi),
                ),
                ..old(self)@
            }),
    {
        let keys = sorted_keys(&self.var_map);
        let n: usize = keys.len();
        let mut k: usize = 0;
        while k < n
            invariant
                k <= n,
                n == keys@.len(),
                is_key_list(keys@, old(self)@.var_map),
                self@ == (BlockView { var_map: self@.var_map, ..old(self)@ }),
                self@.var_map.dom() == old(self)@.var_map.dom(),
                forall|i: int|
                    0 <= i < k ==> self@.var_map[#[trigger] keys@[i]] == redirect_def(
                        old(self)@.var_map[keys@[i]],
                        renamed_var,
                        phi,
                    ),
                forall|i: int|
                    k <= i < n ==> self@.var_map[#[trigger] keys@[i]] == old(self)@.var_map[keys@[i]],
            decreases n - k,
        {
            let key: usize = keys[k];
            assert(keys@.to_set().contains(key));
            let def: Option<Slot> = match self.var_map.get(&key) {
                Some(def) => *def,
                None => None,
            };
            match def {
                Some((_, Some(v))) => {
                    if v == renamed_var {
                        self.var_map.insert(key, Some((phi, Some(renamed_var))));
                        assert(self@.var_map.dom() =~= old(self)@.var_map.dom());
                    }
                },
                _ => {},
            }
            k = k + 1;
        }
        proof {
            let target = old(self)@.var_map.map_values(
                |def: Option<Slot>| redirect_def(def, renamed_var, phi),
            );
            assert forall|key: usize| target.dom().contains(key) implies #[trigger] self@.var_map[key]
                == target[key] by {
                assert(keys@.to_set().contains(key));
                let i = choose|i: int| 0 <= i < keys@.len() && keys@[i] == key;
                assert(self@.var_map[keys@[i]] == redirect_def(
                    old(self)@.var_map[keys@[i]],
                    renamed_var,
                    phi,
                ));
            }
            assert(self@.var_map =~= target);
        }
    }
}

/// The views of a sequence of blocks.
pub open spec fn block_views(blocks: Seq<Block>) -> Seq<BlockView> {
    blocks.map_values(|b: Block| b@)
}

/// What `resolve_phis` makes of a block: its phis stand in front of its
/// instructions, in the order of their variables.
pub open spec fn phis_resolved(before: BlockView, after: BlockView) -> bool {
    after == (BlockView {
        insts: key_list(before.phis).map_values(|k: usize| before.phis[k]) + before.insts,
        ..before
    })
}

/// Whether block `a` is block `b` or one of its dominators: whether the
/// chain of immediate dominators that starts at `b` passes through `a`.
pub open spec fn dominates(blocks: Seq<BlockView>, a: int, b: int) -> bool
    decreases b,
{
    if a == b {
        true
    } else if 0 <= b < blocks.len() {
        match blocks[b].dom {
            Some(d) => d < b && dominates(blocks, a, d as int),
            None => false,
        }
    } else {
        false
    }
}

/// The append-only store of blocks.
#[derive(Debug, PartialEq, Clone)]
pub struct BlockList {
    pub blocks: Vec<Block>,
    pub block_count: usize,
}

impl BlockList {
    /// The store's invariant: the counter is the number of blocks, each
    /// block's id is its position, and each immediate dominator is a
    /// strictly earlier block.
    pub open spec fn wf(&self) -> bool {
        &&& self.block_count == self.blocks@.len()
        &&& forall|i: int|
            0 <= i < self.blocks@.len() ==> {
                &&& (#[trigger] self.blocks@[i]).id == i
                &&& (self.blocks@[i].dom matches Some(d) ==> d < i)
            }
    }

    pub fn new() -> (r: BlockList)
        ensures
            r.wf(),
            r.blocks@.len() == 0,
    {
        BlockList { blocks: Vec::new(), block_count: 0 }
    }

    /// Appends an empty block without a dominator and returns its id.
    pub fn add(&mut self) -> (r: usize)
        requires
            old(self).wf(),
        ensures
            final(self).wf(),
            r == old(self).blocks@.len(),
            final(self).blocks@.len() == r + 1,
            forall|i: int| 0 <= i < r ==> final(self).blocks@[i] == old(self).blocks@[i],
            final(self).blocks@[r as int]@ == (BlockView {
                id: r,
                dom: None,
                insts: Seq::empty(),
                next: (None, None),
                var_map: Map::empty(),
                op_map: OpMap { add: None, sub: None, mul: None, div: None },
                phis: Map::empty(),
            }),
    {
        let block_id: usize = self.block_count;
        let block = Block::new(block_id);
        self.blocks.push(block);
        self.block_count = self.blocks.len();
        block_id
    }

    /// Appends an empty block whose immediate dominator is `block` and
    /// returns its id. The new block starts from a copy of the dominator's
    /// variable definitions and operation classes.
    pub fn add_from(&mut self, block: usize) -> (r: usize)
        requires
            old(self).wf(),
            block < old(self).blocks@.len(),
        ensures
            final(self).wf(),
            r == old(self).blocks@.len(),
            final(self).blocks@.len() == r + 1,
            forall|i: int| 0 <= i < r ==> final(self).blocks@[i] == old(self).blocks@[i],
            final(self).blocks@[r as int]@ == (BlockView {
                id: r,
                dom: Some(block),
                insts: Seq::empty(),
                next: (None, None),
                var_map: old(self).blocks@[block as int]@.var_map,
                op_map: old(self).blocks@[block as int]@.op_map,
                phis: Map::empty(),
            }),
    {
        let block_id: usize = self.block_count;
        let block = Block::from(block_id, self.get(block));
        self.blocks.push(block);
        self.block_count = self.blocks.len();
        block_id
    }

    pub fn get(&self, idx: usize) -> (r: &Block)
        requires
            idx < self.blocks@.len(),
        ensures
            *r == self.blocks@[idx as int],
    {
        &self.blocks[idx]
    }

    pub fn get_mut(&mut self, idx: usize) -> (r: &mut Block)
        requires
            idx < old(self).blocks@.len(),
        ensures
            *r == old(self).blocks@[idx as int],
            final(self).blocks@ == old(self).blocks@.update(idx as int, *final(r)),
            final(self).block_count == old(self).block_count,
    {
        &mut self.blocks[idx]
    }

    /// The blocks in creation order.
    pub fn iter(&self) -> (r: &[Block])
        ensures
            r@ == self.blocks@,
    {
        self.blocks.as_slice()
    }

    /// Puts every block's phis in front of its instructions.
    pub fn resolve_phis(&mut self)
        ensures
            final(self).block_count == old(self).block_count,
            final(self).blocks@.len() == old(self).blocks@.len(),
            forall|i: int|
                0 <= i < old(self).blocks@.len() ==> phis_resolved(
                    old(self).blocks@[i]@,
                    #[trigger] final(self).blocks@[i]@,
                ),
            old(self).wf() ==> final(self).wf(),
    {
        let n: usize = self.blocks.len();
        let mut k: usize = 0;
        while k < n
            invariant
                k <= n,
                n == self.blocks@.len(),
                n == old(self).blocks@.len(),
                self.block_count == old(self).block_count,
                forall|i: int|
                    0 <= i < k ==> phis_resolved(
                        old(self).blocks@[i]@,
                        #[trigger] self.blocks@[i]@,
                    ),
                forall|i: int| k <= i < n ==> self.blocks@[i] == old(self).blocks@[i],
                forall|i: int|
                    0 <= i < n ==> (#[trigger] self.blocks@[i]).id == old(self).blocks@[i].id
                        && self.blocks@[i].dom == old(self).blocks@[i].dom,
            decreases n - k,
        {
            self.blocks[k].resolve_phis();
            k = k + 1;
        }
    }
}

/// A block that dominates another was created no later: its id is no
/// larger.
pub proof fn lemma_dominator_is_earlier(blocks: Seq<BlockView>, a: int, b: int)
    requires
        dominates(blocks, a, b),
    ensures
        a <= b,
    decreases b,
{
    if a != b {
        lemma_dominator_is_earlier(blocks, a, blocks[b].dom.unwrap() as int);
    }
}

/// The dominator relation has no cycle: two different blocks never dominate
/// each other.
pub proof fn lemma_dominators_acyclic(blocks: Seq<BlockView>, a: int, b: int)
    requires
        dominates(blocks, a, b),
        dominates(blocks, b, a),
    ensures
        a == b,
{
    lemma_dominator_is_earlier(blocks, a, b);
    lemma_dominator_is_earlier(blocks, b, a);
}

/// Dominance is transitive.
pub proof fn lemma_dominates_transitive(blocks: Seq<BlockView>, a: int, b: int, c: int)
    requires
        dominates(blocks, a, b),
        dominates(blocks, b, c),
    ensures
        dominates(blocks, a, c),
    decreases c,
{
    if b != c {
        lemma_dominates_transitive(blocks, a, b, blocks[c].dom.unwrap() as int);
    }
}

/// Dominance among the blocks up to `b` depends on their immediate
/// dominators alone.
pub proof fn lemma_dominates_stable(before: Seq<BlockView>, after: Seq<BlockView>, a: int, b: int)
    requires
        0 <= b < before.len() <= after.len(),
        forall|x: int| 0 <= x <= b ==> (#[trigger] after[x]).dom == before[x].dom,
    ensures
        dominates(after, a, b) == dominates(before, a, b),
    decreases b,
{
    if a != b {
        match before[b].dom {
            Some(d) => {
                if d < b {
                    lemma_dominates_stable(before, after, a, d as int);
                }
            },
            None => {},
        }
    }
}

/// In a well-formed store the immediate dominator of every block has a
/// strictly smaller id, and following immediate dominators from any block
/// ends at a block without one: the links form a forest, and the parent
/// relation has no cycle.
pub proof fn lemma_dominator_tree(list: BlockList, b: int) -> (root: int)
    requires
        list.wf(),
        0 <= b < list.blocks@.len(),
    ensures
        list.blocks@[b].dom matches Some(d) ==> d < b,
        0 <= root <= b,
        list.blocks@[root].dom is None,
        dominates(block_views(list.blocks@), root, b),
    decreases b,
{
    match list.blocks@[b].dom {
        Some(d) => {
            let root = lemma_dominator_tree(list, d as int);
            assert(block_views(list.blocks@)[b].dom == Some(d));
            root
        },
        None => b,
    }
}

} // verus!
