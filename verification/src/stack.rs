//! The simulated stack: the compiler's model of the target machine's runtime
//! stack during code generation. The machine has no addressable variables, so
//! every named value is a compile-time label attached to a depth, and bringing
//! it to the top means emitting positional-copy opcodes against the depth the
//! label currently has.

use vstd::prelude::*;

use crate::ast::Type;
use crate::error::CompileError;
use crate::instr::{Instr, Instruction, OP_DUP, OP_PICK};

verus! {

/// The deepest stack element the target's positional opcodes can address.
pub const STACK_ADDRESS_LIMIT: usize = 1000;

/// One slot of the simulated stack: the value's semantic type, and the
/// identifier currently bound to it, if any.
pub struct Slot {
    pub name: Option<String>,
    pub ty: Type,
}

/// The mathematical model of a slot.
pub struct SlotModel {
    pub name: Option<Seq<char>>,
    pub ty: Type,
}

impl View for Slot {
    type V = SlotModel;

    open spec fn view(&self) -> SlotModel {
        SlotModel { name: self.name.deep_view(), ty: self.ty }
    }
}

impl DeepView for Slot {
    type V = SlotModel;

    open spec fn deep_view(&self) -> SlotModel {
        self.view()
    }
}

/// The simulated stack. The last slot is the top of the stack.
pub struct SimulatedStack {
    pub slots: Vec<Slot>,
}

impl View for SimulatedStack {
    type V = Seq<SlotModel>;

    open spec fn view(&self) -> Seq<SlotModel> {
        self.slots.deep_view()
    }
}

/// The sequence of slot types, bottom to top: the shape that conditional arms
/// must agree on.
pub open spec fn shape_of(stack: Seq<SlotModel>) -> Seq<Type> {
    stack.map_values(|s: SlotModel| s.ty)
}

/// The stack with every binding at or above the given height removed: the
/// values stay, their labels go out of scope.
pub open spec fn anonymize_from(stack: Seq<SlotModel>, k: int) -> Seq<SlotModel> {
    Seq::new(
        stack.len(),
        |i: int|
            if i < k {
                stack[i]
            } else {
                SlotModel { name: None, ty: stack[i].ty }
            },
    )
}

/// The depth, counted from zero at the top, of the topmost slot bound to the
/// identifier; `None` where no slot is.
pub open spec fn find_depth(stack: Seq<SlotModel>, id: Seq<char>) -> Option<int>
    decreases stack.len(),
{
    if stack.len() == 0 {
        None
    } else if stack.last().name == Some(id) {
        Some(0)
    } else {
        match find_depth(stack.drop_last(), id) {
            Some(d) => Some(d + 1),
            None => None,
        }
    }
}

/// Whether one stack grows out of another: every slot of the base still
/// stands, unchanged, beneath whatever was added above it. What a failed
/// compilation step leaves behind always grows out of what it was given.
pub open spec fn stack_extends(new: Seq<SlotModel>, base: Seq<SlotModel>) -> bool {
    &&& new.len() >= base.len()
    &&& forall|i: int| 0 <= i < base.len() ==> new[i] == base[i]
}

/// Growing out of a stack is transitive.
pub proof fn lemma_extends_trans(a: Seq<SlotModel>, b: Seq<SlotModel>, c: Seq<SlotModel>)
    requires
        stack_extends(b, a),
        stack_extends(c, b),
    ensures
        stack_extends(c, a),
{
    assert forall|i: int| 0 <= i < a.len() implies c[i] == a[i] by {
        assert(b[i] == a[i]);
        assert(c[i] == b[i]);
    }
}

/// A stack whose front segment equals the base grows out of it.
pub proof fn lemma_take_extends(new: Seq<SlotModel>, base: Seq<SlotModel>)
    requires
        new.len() >= base.len(),
        new.take(base.len() as int) == base,
    ensures
        stack_extends(new, base),
{
    assert forall|i: int| 0 <= i < base.len() implies new[i] == base[i] by {
        assert(new.take(base.len() as int)[i] == base[i]);
    }
}

/// The depth an identifier resolves to is a real position of the stack.
pub proof fn lemma_find_depth_in_range(stack: Seq<SlotModel>, id: Seq<char>)
    ensures
        find_depth(stack, id) matches Some(d) ==> 0 <= d < stack.len(),
    decreases stack.len(),
{
    if stack.len() > 0 && stack.last().name != Some(id) {
        lemma_find_depth_in_range(stack.drop_last(), id);
    }
}

/// What resolving an identifier does: the positional opcodes that copy its
/// value to the top, and the stack afterward, which has gained one anonymous
/// slot of the identifier's type.
pub open spec fn resolve_spec(id: Seq<char>, stack: Seq<SlotModel>) -> Result<
    (Seq<Instr>, Seq<SlotModel>),
    CompileError,
> {
    match find_depth(stack, id) {
        None => Err(CompileError::UndeclaredIdentifier),
        Some(d) => {
            if d > STACK_ADDRESS_LIMIT as int {
                Err(CompileError::UnreachableVariable)
            } else {
                let ty = stack[stack.len() - 1 - d].ty;
                let code = if d == 0 {
                    seq![Instr::Op(OP_DUP)]
                } else {
                    seq![Instr::PushNum(d), Instr::Op(OP_PICK)]
                };
                Ok((code, stack.push(SlotModel { name: None, ty })))
            }
        },
    }
}

impl SimulatedStack {
    /// The number of slots.
    pub fn depth(&self) -> (r: usize)
        ensures
            r == self@.len(),
    {
        self.slots.len()
    }

    /// The type of the top slot.
    pub fn top_ty(&self) -> (r: Type)
        requires
            self@.len() > 0,
        ensures
            r == self@.last().ty,
    {
        self.slots[self.slots.len() - 1].ty
    }

    /// The type of the slot at the given height.
    pub fn ty_at(&self, i: usize) -> (r: Type)
        requires
            i < self@.len(),
        ensures
            r == self@[i as int].ty,
    {
        self.slots[i].ty
    }

    /// Pushes an unnamed slot of the given type.
    pub fn push_anon(&mut self, ty: Type)
        ensures
            final(self)@ == old(self)@.push(SlotModel { name: None, ty }),
    {
        let ghost before = self.slots.deep_view();
        self.slots.push(Slot { name: None, ty });
        proof {
            assert(self.slots.deep_view() =~= before.push(SlotModel { name: None, ty }));
        }
    }

    /// Removes the top slot.
    pub fn pop_slot(&mut self)
        requires
            old(self)@.len() > 0,
        ensures
            final(self)@ == old(self)@.drop_last(),
    {
        let ghost before = self.slots.deep_view();
        let _ = self.slots.pop();
        proof {
            assert(self.slots.deep_view() =~= before.drop_last());
        }
    }

    /// Binds the identifier to the top slot, shadowing any earlier binding of
    /// the same name.
    pub fn bind_top(&mut self, name: &String)
        requires
            old(self)@.len() > 0,
        ensures
            final(self)@ == old(self)@.drop_last().push(
                SlotModel { name: Some(name@), ty: old(self)@.last().ty },
            ),
    {
        let ghost before = self.slots.deep_view();
        let i = self.slots.len() - 1;
        let ty = self.slots[i].ty;
        self.slots.set(i, Slot { name: Some(name.clone()), ty });
        proof {
            assert(self.slots.deep_view() =~= before.drop_last().push(
                SlotModel { name: Some(name@), ty: before.last().ty },
            ));
        }
    }

    /// Removes the binding of every slot at or above the given height.
    pub fn anonymize_above(&mut self, k: usize)
        ensures
            final(self)@ == anonymize_from(old(self)@, k as int),
    {
        let ghost before = self.slots.deep_view();
        let mut i: usize = k;
        while i < self.slots.len()
            invariant
                k <= i || i == k,
                before == old(self).slots.deep_view(),
                self.slots.deep_view().len() == before.len(),
                i <= self.slots.len() || self.slots.len() < k,
                forall|m: int|
                    0 <= m < before.len() && !(k <= m < i) ==> self.slots.deep_view()[m]
                        == before[m],
                forall|m: int|
                    k <= m < i && m < before.len() ==> self.slots.deep_view()[m] == (SlotModel {
                        name: None,
                        ty: before[m].ty,
                    }),
            decreases self.slots.len() - i,
        {
            let ty = self.slots[i].ty;
            let ghost mid = self.slots.deep_view();
            self.slots.set(i, Slot { name: None, ty });
            proof {
                assert(self.slots.deep_view() =~= mid.update(
                    i as int,
                    SlotModel { name: None, ty },
                ));
                assert(mid[i as int].ty == before[i as int].ty);
            }
            i += 1;
        }
        proof {
            assert(self.slots.deep_view() =~= anonymize_from(before, k as int));
        }
    }

    /// Copies the simulated stack, as forking it before a conditional arm
    /// requires.
    pub fn fork(&self) -> (r: SimulatedStack)
        ensures
            r@ == self@,
    {
        let mut slots: Vec<Slot> = Vec::new();
        let mut i: usize = 0;
        while i < self.slots.len()
            invariant
                i <= self.slots.len(),
                slots.deep_view().len() == i,
                forall|k: int| 0 <= k < i ==> slots.deep_view()[k] == self.slots.deep_view()[k],
            decreases self.slots.len() - i,
        {
            let s = &self.slots[i];
            let name = match &s.name {
                Some(n) => Some(n.clone()),
                None => None,
            };
            proof {
                assert(name == s.name);
            }
            let ghost before = slots.deep_view();
            slots.push(Slot { name, ty: s.ty });
            proof {
                assert(slots.deep_view() =~= before.push(s@));
                assert(s@ == self.slots.deep_view()[i as int]);
            }
            i += 1;
        }
        proof {
            assert(slots.deep_view() =~= self.slots.deep_view());
        }
        SimulatedStack { slots }
    }
}

/// Scans the simulated stack from the top for the slot bound to the
/// identifier and emits the minimal positional-copy opcodes that bring a
/// usable copy of its value to the top: a plain duplication at depth zero, a
/// depth-addressed copy otherwise. Fails where the identifier is unbound, or
/// where its depth exceeds the target's addressing limit.
pub fn stack_resolver(identifier: &String, stack: &mut SimulatedStack) -> (r: Result<
    Vec<Instruction>,
    CompileError,
>)
    ensures
        match resolve_spec(identifier@, old(stack)@) {
            Ok(p) => r matches Ok(code) && code.deep_view() == p.0 && final(stack)@ == p.1,
            Err(e) => r == Err::<Vec<Instruction>, CompileError>(e) && final(stack)@ == old(
                stack,
            )@,
        },
{
    let ghost sv = stack@;
    let ghost id = identifier@;
    let n = stack.slots.len();
    let mut j: usize = n;
    proof {
        assert(sv.take(n as int) =~= sv);
    }
    while j > 0
        invariant
            j <= n,
            n == stack.slots.len(),
            id == identifier@,
            sv == old(stack)@,
            sv == stack.slots.deep_view(),
            sv.len() == n,
            find_depth(sv, id) == match find_depth(sv.take(j as int), id) {
                Some(d) => Some(d + (n - j)),
                None => None::<int>,
            },
        decreases j,
    {
        let jj = j - 1;
        proof {
            assert(sv.take(j as int).last() == sv[jj as int]);
            assert(sv.take(j as int).drop_last() =~= sv.take(jj as int));
        }
        let slot = &stack.slots[jj];
        let hit = match &slot.name {
            Some(nm) => *nm == *identifier,
            None => false,
        };
        proof {
            assert(slot@ == sv[jj as int]);
            assert(hit == (sv[jj as int].name == Some(id)));
        }
        if hit {
            let depth = n - j;
            proof {
                assert(find_depth(sv.take(j as int), id) == Some(0int));
                assert(find_depth(sv, id) == Some(depth as int));
            }
            if depth > STACK_ADDRESS_LIMIT {
                return Err(CompileError::UnreachableVariable);
            }
            let ty = stack.slots[jj].ty;
            proof {
                assert(sv[sv.len() - 1 - depth as int].ty == ty);
            }
            let code: Vec<Instruction> = if depth == 0 {
                vec![Instruction::Op(OP_DUP)]
            } else {
                vec![Instruction::PushNum(depth as i64), Instruction::Op(OP_PICK)]
            };
            let ghost before = stack.slots.deep_view();
            stack.slots.push(Slot { name: None, ty });
            proof {
                assert(stack.slots.deep_view() =~= before.push(SlotModel { name: None, ty }));
                if depth == 0 {
                    assert(code.deep_view() =~= seq![Instr::Op(OP_DUP)]);
                } else {
                    assert(code.deep_view() =~= seq![
                        Instr::PushNum(depth as int),
                        Instr::Op(OP_PICK),
                    ]);
                }
            }
            return Ok(code);
        }
        j = jj;
    }
    proof {
        assert(sv.take(0) =~= Seq::<SlotModel>::empty());
        assert(find_depth(sv, id) is None);
    }
    Err(CompileError::UndeclaredIdentifier)
}

} // verus!
