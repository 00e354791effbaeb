//! The peephole optimizer: a single left-to-right pass with one-instruction
//! lookahead over a fixed rewrite table, applied repeatedly until no rewrite
//! matches. Each rewrite replaces a check-then-verify pair by the target's
//! combined check-and-verify opcode, so the optimized program accepts exactly
//! the witness stacks the original did.

use vstd::prelude::*;

use crate::encode::{instr_sized, well_sized};
use crate::instr::{Instr, Instruction};
use crate::instr::{
    OP_CHECKSIG, OP_CHECKSIGVERIFY, OP_EQUAL, OP_EQUALVERIFY, OP_NUMEQUAL, OP_NUMEQUALVERIFY,
    OP_VERIFY,
};

verus! {

/// The rewrite table: two adjacent instructions that merge into one, or
/// nothing. A check followed by a verify becomes the combined opcode.
pub open spec fn merge_rewrite(a: Instr, b: Instr) -> Option<Instr> {
    if b == Instr::Op(OP_VERIFY) {
        if a == Instr::Op(OP_EQUAL) {
            Some(Instr::Op(OP_EQUALVERIFY))
        } else if a == Instr::Op(OP_NUMEQUAL) {
            Some(Instr::Op(OP_NUMEQUALVERIFY))
        } else if a == Instr::Op(OP_CHECKSIG) {
            Some(Instr::Op(OP_CHECKSIGVERIFY))
        } else {
            None
        }
    } else {
        None
    }
}

/// One left-to-right pass: at each position, either the pair starting there
/// merges and both instructions are consumed, or the first instruction is
/// kept as it stands.
pub open spec fn optimize_pass(s: Seq<Instr>) -> Seq<Instr>
    decreases s.len(),
{
    if s.len() >= 2 {
        match merge_rewrite(s[0], s[1]) {
            Some(m) => seq![m] + optimize_pass(s.skip(2)),
            None => seq![s[0]] + optimize_pass(s.skip(1)),
        }
    } else {
        s
    }
}

/// A pass never lengthens the sequence, and a pass that changes it shortens
/// it: the measure that bounds the repeated rewriting.
pub proof fn lemma_pass_shrinks(s: Seq<Instr>)
    ensures
        optimize_pass(s).len() <= s.len(),
        optimize_pass(s) != s ==> optimize_pass(s).len() < s.len(),
    decreases s.len(),
{
    if s.len() >= 2 {
        match merge_rewrite(s[0], s[1]) {
            Some(m) => {
                lemma_pass_shrinks(s.skip(2));
            },
            None => {
                lemma_pass_shrinks(s.skip(1));
                if optimize_pass(s.skip(1)) == s.skip(1) {
                    assert(seq![s[0]] + s.skip(1) =~= s);
                }
            },
        }
    }
}

/// The optimized form of an instruction sequence: passes are applied until
/// one leaves the sequence unchanged.
pub open spec fn optimized(s: Seq<Instr>) -> Seq<Instr>
    decreases s.len(),
    via optimized_decreases
{
    if optimize_pass(s) == s {
        s
    } else {
        optimized(optimize_pass(s))
    }
}

#[via_fn]
proof fn optimized_decreases(s: Seq<Instr>) {
    lemma_pass_shrinks(s);
}

/// The optimized form is a fixed point: one more pass leaves it unchanged.
pub proof fn lemma_optimized_fixed_point(s: Seq<Instr>)
    ensures
        optimize_pass(optimized(s)) == optimized(s),
    decreases s.len(),
{
    if optimize_pass(s) != s {
        lemma_pass_shrinks(s);
        lemma_optimized_fixed_point(optimize_pass(s));
    }
}

/// Law: optimizing an already-optimized instruction sequence changes nothing.
pub proof fn lemma_optimize_idempotent(s: Seq<Instr>)
    ensures
        optimized(optimized(s)) == optimized(s),
{
    lemma_optimized_fixed_point(s);
}

/// A rewrite pass keeps every data push within the element size limit: a
/// merged pair becomes a bare opcode, and everything else is kept as it was.
pub proof fn lemma_pass_sized(s: Seq<Instr>)
    requires
        well_sized(s),
    ensures
        well_sized(optimize_pass(s)),
    decreases s.len(),
{
    if s.len() >= 2 {
        match merge_rewrite(s[0], s[1]) {
            Some(m) => {
                assert(well_sized(s.skip(2))) by {
                    assert forall|k: int| 0 <= k < s.skip(2).len() implies instr_sized(
                        #[trigger] s.skip(2)[k],
                    ) by {
                        assert(s.skip(2)[k] == s[k + 2]);
                    }
                }
                lemma_pass_sized(s.skip(2));
                assert(well_sized(seq![m]));
                crate::encode::lemma_well_sized_concat(seq![m], optimize_pass(s.skip(2)));
            },
            None => {
                assert(well_sized(s.skip(1))) by {
                    assert forall|k: int| 0 <= k < s.skip(1).len() implies instr_sized(
                        #[trigger] s.skip(1)[k],
                    ) by {
                        assert(s.skip(1)[k] == s[k + 1]);
                    }
                }
                lemma_pass_sized(s.skip(1));
                assert(well_sized(seq![s[0]]));
                crate::encode::lemma_well_sized_concat(seq![s[0]], optimize_pass(s.skip(1)));
            },
        }
    }
}

/// The optimized form keeps every data push within the element size limit.
pub proof fn lemma_optimized_sized(s: Seq<Instr>)
    requires
        well_sized(s),
    ensures
        well_sized(optimized(s)),
    decreases s.len(),
{
    if optimize_pass(s) != s {
        lemma_pass_shrinks(s);
        lemma_pass_sized(s);
        lemma_optimized_sized(optimize_pass(s));
    }
}

/// Merges two adjacent instructions by the rewrite table, if they match it.
fn try_merge(a: &Instruction, b: &Instruction) -> (r: Option<Instruction>)
    ensures
        match r {
            Some(m) => merge_rewrite(a@, b@) == Some(m@),
            None => merge_rewrite(a@, b@) is None,
        },
{
    match (a, b) {
        (Instruction::Op(x), Instruction::Op(y)) => {
            if *y == OP_VERIFY {
                if *x == OP_EQUAL {
                    Some(Instruction::Op(OP_EQUALVERIFY))
                } else if *x == OP_NUMEQUAL {
                    Some(Instruction::Op(OP_NUMEQUALVERIFY))
                } else if *x == OP_CHECKSIG {
                    Some(Instruction::Op(OP_CHECKSIGVERIFY))
                } else {
                    None
                }
            } else {
                None
            }
        },
        _ => None,
    }
}

/// Copies one instruction, preserving its model.
fn clone_instruction(a: &Instruction) -> (r: Instruction)
    ensures
        r@ == a@,
{
    match a {
        Instruction::Op(b) => Instruction::Op(*b),
        Instruction::PushNum(n) => Instruction::PushNum(*n),
        Instruction::PushData(d) => {
            let copy = d.clone();
            assert(copy@ =~= d@);
            Instruction::PushData(copy)
        },
    }
}

/// Runs one rewrite pass over the instruction sequence. The flag reports
/// whether any rewrite fired.
fn optimize_pass_exec(v: &Vec<Instruction>) -> (res: (Vec<Instruction>, bool))
    ensures
        res.0.deep_view() == optimize_pass(v.deep_view()),
        !res.1 ==> res.0.deep_view() == v.deep_view(),
        res.1 ==> res.0.len() < v.len(),
{
    let ghost dv = v.deep_view();
    let mut out: Vec<Instruction> = Vec::new();
    let mut changed = false;
    let mut i: usize = 0;
    proof {
        assert(dv.skip(0) =~= dv);
    }
    while i < v.len()
        invariant
            i <= v.len(),
            dv == v.deep_view(),
            dv.len() == v.len(),
            optimize_pass(dv) == out.deep_view() + optimize_pass(dv.skip(i as int)),
            !changed ==> out.deep_view() =~= dv.take(i as int),
            changed ==> out.len() < i,
            out.len() <= i,
        decreases v.len() - i,
    {
        let ghost j = i as int;
        let ghost out0 = out.deep_view();
        let merged = if i + 1 < v.len() {
            try_merge(&v[i], &v[i + 1])
        } else {
            None
        };
        match merged {
            Some(m) => {
                proof {
                    assert(dv.skip(j)[0] == dv[j]);
                    assert(dv.skip(j)[1] == dv[j + 1]);
                    assert(dv.skip(j).skip(2) =~= dv.skip(j + 2));
                    assert(optimize_pass(dv.skip(j)) == seq![m@] + optimize_pass(dv.skip(j + 2)));
                }
                out.push(m);
                proof {
                    assert(out.deep_view() =~= out0.push(m@));
                    assert(out0 + (seq![m@] + optimize_pass(dv.skip(j + 2))) =~= out0.push(m@)
                        + optimize_pass(dv.skip(j + 2)));
                }
                changed = true;
                i += 2;
            },
            None => {
                proof {
                    if j + 1 < dv.len() {
                        assert(dv.skip(j)[0] == dv[j]);
                        assert(dv.skip(j)[1] == dv[j + 1]);
                        assert(dv.skip(j).skip(1) =~= dv.skip(j + 1));
                        assert(optimize_pass(dv.skip(j)) == seq![dv[j]] + optimize_pass(
                            dv.skip(j + 1),
                        ));
                    } else {
                        assert(dv.skip(j).len() == 1);
                        assert(dv.skip(j)[0] == dv[j]);
                        assert(dv.skip(j + 1) =~= Seq::<Instr>::empty());
                        assert(optimize_pass(dv.skip(j)) =~= seq![dv[j]] + optimize_pass(
                            dv.skip(j + 1),
                        ));
                    }
                }
                let kept = clone_instruction(&v[i]);
                proof {
                    assert(kept@ == dv[j]);
                }
                out.push(kept);
                proof {
                    assert(out.deep_view() =~= out0.push(dv[j]));
                    assert(out0 + (seq![dv[j]] + optimize_pass(dv.skip(j + 1))) =~= out0.push(
                        dv[j],
                    ) + optimize_pass(dv.skip(j + 1)));
                    if !changed {
                        assert(out.deep_view() =~= dv.take(j + 1));
                    }
                }
                i += 1;
            },
        }
    }
    proof {
        assert(dv.skip(dv.len() as int) =~= Seq::<Instr>::empty());
        assert(out.deep_view() + Seq::<Instr>::empty() =~= out.deep_view());
        if !changed {
            assert(dv.take(dv.len() as int) =~= dv);
        }
    }
    (out, changed)
}

/// Rewrites the compiled instruction sequence to its canonical optimized
/// form: rewrite passes run until a fixed point is reached, since one rewrite
/// can expose a new adjacency.
pub fn opcode_optimizer(instructions: Vec<Instruction>) -> (r: Vec<Instruction>)
    ensures
        r.deep_view() == optimized(instructions.deep_view()),
{
    let ghost orig = instructions.deep_view();
    let mut cur = instructions;
    loop
        invariant
            orig == instructions.deep_view(),
            optimized(cur.deep_view()) == optimized(orig),
        decreases cur.len(),
    {
        let ghost before = cur.deep_view();
        let (next, hit) = optimize_pass_exec(&cur);
        if !hit {
            proof {
                assert(optimize_pass(before) == before);
                assert(optimized(before) == before);
            }
            return cur;
        }
        proof {
            lemma_pass_shrinks(before);
            assert(optimized(optimize_pass(before)) == optimized(before));
        }
        cur = next;
    }
}

} // verus!
