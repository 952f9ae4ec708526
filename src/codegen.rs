//! Instruction selection: from the intermediate representation to assembly.
//!
//! Each expression is computed into a destination operand by one left-to-right,
//! depth-first walk. A binary operation always takes two fresh temporaries for
//! its operands, whatever their shape, and then one instruction.
use vstd::prelude::*;
use crate::codegen::assembly::{Instruction, Op, Operand, Register};
use crate::middle::ir::{Binop, Expr, Program, Statement, moves_into_temps};
use crate::util::temp::{Temp, TempAllocator};

pub mod assembly;

verus! {

/// The assembly operator of an operator of the intermediate representation.
pub open spec fn spec_op(b: Binop) -> Op {
    match b {
        Binop::Add => Op::Add,
        Binop::Sub => Op::Sub,
        Binop::Mul => Op::Mul,
        Binop::Div => Op::Div,
        Binop::Mod => Op::Mod,
    }
}

/// The number of binary operations in `e`.
pub open spec fn binops(e: Expr) -> nat
    decreases e,
{
    match e {
        Expr::Binop(_, e1, e2) => binops(*e1) + binops(*e2) + 1,
        _ => 0,
    }
}

/// The instructions that compute `e` into `dst` when the next free temporary is
/// numbered `next`, and the next free one afterwards.
pub open spec fn munch(dst: Operand, e: Expr, next: nat) -> (Seq<Instruction>, nat)
    decreases e,
{
    match e {
        Expr::Constant(c) => (seq![Instruction::Mov(dst, Operand::Imm(c))], next),
        Expr::Temp(t) => (seq![Instruction::Mov(dst, Operand::Temp(t))], next),
        Expr::Binop(b, e1, e2) => {
            let t1 = Operand::Temp(Temp(next as usize));
            let t2 = Operand::Temp(Temp((next + 1) as usize));
            let (i1, n1) = munch(t1, *e1, next + 2);
            let (i2, n2) = munch(t2, *e2, n1);
            (i1 + i2 + seq![Instruction::Binop(spec_op(b), dst, t1, Some(t2))], n2)
        },
    }
}

/// Where a statement's value goes: its temporary for a move, the return
/// register for a return.
pub open spec fn stmt_dest(s: Statement) -> Operand {
    match s {
        Statement::Move(Expr::Temp(t), _) => Operand::Temp(t),
        Statement::Move(_, _) => Operand::Reg(Register::EAX),
        Statement::Return(_) => Operand::Reg(Register::EAX),
    }
}

/// The expression a statement computes.
pub open spec fn stmt_expr(s: Statement) -> Expr {
    match s {
        Statement::Move(_, e) => e,
        Statement::Return(e) => e,
    }
}

/// The instructions for the statements `stmts`, in order, from the next free
/// temporary `next`; and the next free one afterwards.
pub open spec fn munch_stmts(stmts: Seq<Statement>, next: nat) -> (Seq<Instruction>, nat)
    decreases stmts.len(),
{
    if stmts.len() == 0 {
        (seq![], next)
    } else {
        let (ins, n) = munch_stmts(stmts.drop_last(), next);
        let (ins1, n1) = munch(stmt_dest(stmts.last()), stmt_expr(stmts.last()), n);
        (ins + ins1, n1)
    }
}

/// The number of binary operations in all of `stmts`.
pub open spec fn stmts_binops(stmts: Seq<Statement>) -> nat
    decreases stmts.len(),
{
    if stmts.len() == 0 {
        0
    } else {
        stmts_binops(stmts.drop_last()) + binops(stmt_expr(stmts.last()))
    }
}

/// Selection uses two temporaries for each binary operation.
pub proof fn lemma_munch_next(dst: Operand, e: Expr, next: nat)
    ensures
        munch(dst, e, next).1 == next + 2 * binops(e),
        munch(dst, e, next).0.len() == 1 + 2 * binops(e),
    decreases e,
{
    if let Expr::Binop(b, e1, e2) = e {
        let t1 = Operand::Temp(Temp(next as usize));
        let t2 = Operand::Temp(Temp((next + 1) as usize));
        lemma_munch_next(t1, *e1, next + 2);
        lemma_munch_next(t2, *e2, munch(t1, *e1, next + 2).1);
    }
}

/// The operand an instruction writes, if any.
pub open spec fn written(i: Instruction) -> Option<Operand> {
    match i {
        Instruction::Binop(_, d, _, _) => Some(d),
        Instruction::Mov(d, _) => Some(d),
        _ => None,
    }
}

/// The last instruction selected for an expression writes its destination.
pub proof fn lemma_munch_last(dst: Operand, e: Expr, next: nat)
    ensures
        munch(dst, e, next).0.len() > 0,
        written(munch(dst, e, next).0.last()) == Some(dst),
{
    lemma_munch_next(dst, e, next);
}

/// A program takes one instruction for each statement and two more for each
/// binary operation; if it ends in a return, its last instruction writes the
/// return register.
pub proof fn lemma_program_shape(stmts: Seq<Statement>, next: nat)
    ensures
        munch_stmts(stmts, next).0.len() == stmts.len() + 2 * stmts_binops(stmts),
        stmts.len() > 0 && stmts.last() is Return ==> written(munch_stmts(stmts, next).0.last())
            == Some(Operand::Reg(Register::EAX)),
    decreases stmts.len(),
{
    if stmts.len() > 0 {
        lemma_program_shape(stmts.drop_last(), next);
        let n = munch_stmts(stmts.drop_last(), next).1;
        lemma_munch_next(stmt_dest(stmts.last()), stmt_expr(stmts.last()), n);
        lemma_munch_last(stmt_dest(stmts.last()), stmt_expr(stmts.last()), n);
        let (ins, _) = munch_stmts(stmts.drop_last(), next);
        let (ins1, _) = munch(stmt_dest(stmts.last()), stmt_expr(stmts.last()), n);
        assert((ins + ins1).last() == ins1.last());
    }
}

/// A binary instruction reads the temporaries `a` and `a + 1`, both from `lo`
/// up to `hi`, with `a` an even distance from `lo`.
pub open spec fn reads_pair(i: Instruction, lo: nat, hi: nat) -> bool {
    match i {
        Instruction::Binop(_, _, Operand::Temp(a), Some(Operand::Temp(b))) => lo <= a.0 && b.0
            == a.0 + 1 && b.0 < hi && (a.0 - lo) % 2 == 0,
        Instruction::Binop(_, _, _, _) => false,
        _ => true,
    }
}

/// The first temporary a binary instruction reads.
pub open spec fn first_source(i: Instruction) -> int {
    match i {
        Instruction::Binop(_, _, Operand::Temp(a), _) => a.0 as int,
        _ => -1,
    }
}

/// Every binary instruction of `ins` reads a pair as `reads_pair` says, and no
/// two of them read the same pair; so no two read the same temporary.
pub open spec fn pairs_distinct(ins: Seq<Instruction>, lo: nat, hi: nat) -> bool {
    &&& forall|k: int| 0 <= k < ins.len() ==> reads_pair(#[trigger] ins[k], lo, hi)
    &&& forall|k1: int, k2: int|
        0 <= k1 < ins.len() && 0 <= k2 < ins.len() && k1 != k2 && ins[k1] is Binop && ins[k2] is Binop
            ==> first_source(#[trigger] ins[k1]) != first_source(#[trigger] ins[k2])
}

proof fn lemma_pairs_widen(ins: Seq<Instruction>, lo: nat, hi: nat, lo2: nat, hi2: nat)
    requires
        pairs_distinct(ins, lo, hi),
        lo2 <= lo,
        hi <= hi2,
        (lo - lo2) % 2 == 0,
    ensures
        pairs_distinct(ins, lo2, hi2),
{
    assert forall|k: int| 0 <= k < ins.len() implies reads_pair(#[trigger] ins[k], lo2, hi2) by {
        assert(reads_pair(ins[k], lo, hi));
    }
}

proof fn lemma_pairs_concat(a: Seq<Instruction>, b: Seq<Instruction>, la: nat, ha: nat, lb: nat, hb: nat)
    requires
        pairs_distinct(a, la, ha),
        pairs_distinct(b, lb, hb),
        ha <= lb || hb <= la,
    ensures
        forall|k1: int, k2: int|
            0 <= k1 < (a + b).len() && 0 <= k2 < (a + b).len() && k1 != k2 && (a + b)[k1] is Binop && (a
                + b)[k2] is Binop ==> first_source(#[trigger] (a + b)[k1]) != first_source(
                #[trigger] (a + b)[k2]),
{
    assert forall|k1: int, k2: int|
        0 <= k1 < (a + b).len() && 0 <= k2 < (a + b).len() && k1 != k2 && (a + b)[k1] is Binop && (a
            + b)[k2] is Binop implies first_source(#[trigger] (a + b)[k1]) != first_source(
        #[trigger] (a + b)[k2]) by {
        if k1 < a.len() {
            assert((a + b)[k1] == a[k1]);
            assert(reads_pair(a[k1], la, ha));
        } else {
            assert((a + b)[k1] == b[k1 - a.len()]);
            assert(reads_pair(b[k1 - a.len()], lb, hb));
        }
        if k2 < a.len() {
            assert((a + b)[k2] == a[k2]);
            assert(reads_pair(a[k2], la, ha));
        } else {
            assert((a + b)[k2] == b[k2 - a.len()]);
            assert(reads_pair(b[k2 - a.len()], lb, hb));
        }
    }
}

proof fn lemma_pairs_join(a: Seq<Instruction>, b: Seq<Instruction>, la: nat, ha: nat, lb: nat, hb: nat, lo: nat, hi: nat)
    requires
        pairs_distinct(a, la, ha),
        pairs_distinct(b, lb, hb),
        ha <= lb || hb <= la,
        lo <= la,
        lo <= lb,
        ha <= hi,
        hb <= hi,
        (la - lo) % 2 == 0,
        (lb - lo) % 2 == 0,
    ensures
        pairs_distinct(a + b, lo, hi),
{
    lemma_pairs_concat(a, b, la, ha, lb, hb);
    lemma_pairs_widen(a, la, ha, lo, hi);
    lemma_pairs_widen(b, lb, hb, lo, hi);
    assert forall|k: int| 0 <= k < (a + b).len() implies reads_pair(#[trigger] (a + b)[k], lo, hi) by {
        if k < a.len() {
            assert((a + b)[k] == a[k]);
        } else {
            assert((a + b)[k] == b[k - a.len()]);
        }
    }
}

/// Selection takes two fresh temporaries for each binary operation: every
/// binary instruction reads its own pair, numbered from where the allocator
/// stood, and no temporary is read by two of them.
pub proof fn lemma_munch_pairs(dst: Operand, e: Expr, next: nat)
    requires
        next + 2 * binops(e) <= usize::MAX,
    ensures
        pairs_distinct(munch(dst, e, next).0, next, munch(dst, e, next).1),
    decreases e,
{
    lemma_munch_next(dst, e, next);
    match e {
        Expr::Binop(b, e1, e2) => {
            let t1 = Operand::Temp(Temp(next as usize));
            let t2 = Operand::Temp(Temp((next + 1) as usize));
            let (i1, n1) = munch(t1, *e1, next + 2);
            let (i2, n2) = munch(t2, *e2, n1);
            lemma_munch_next(t1, *e1, next + 2);
            lemma_munch_next(t2, *e2, n1);
            lemma_munch_pairs(t1, *e1, next + 2);
            lemma_munch_pairs(t2, *e2, n1);
            lemma_pairs_join(i1, i2, next + 2, n1, n1, n2, next + 2, n2);
            let last = seq![Instruction::Binop(spec_op(b), dst, t1, Some(t2))];
            assert(reads_pair(last[0], next, next + 2));
            assert(pairs_distinct(last, next, next + 2));
            lemma_pairs_join(i1 + i2, last, next + 2, n2, next, next + 2, next, n2);
        },
        _ => {
            let ins = munch(dst, e, next).0;
            assert(!(ins[0] is Binop));
        },
    }
}

/// In a whole program, too, no two binary instructions read the same
/// temporary, and all of them read temporaries numbered from where lowering
/// left the allocator.
pub proof fn lemma_munch_stmts_pairs(stmts: Seq<Statement>, next: nat)
    requires
        next + 2 * stmts_binops(stmts) <= usize::MAX,
    ensures
        pairs_distinct(munch_stmts(stmts, next).0, next, munch_stmts(stmts, next).1),
    decreases stmts.len(),
{
    lemma_munch_stmts_next(stmts, next);
    if stmts.len() > 0 {
        lemma_munch_stmts_pairs(stmts.drop_last(), next);
        lemma_munch_stmts_next(stmts.drop_last(), next);
        let (ins, n) = munch_stmts(stmts.drop_last(), next);
        let (ins1, n1) = munch(stmt_dest(stmts.last()), stmt_expr(stmts.last()), n);
        lemma_munch_pairs(stmt_dest(stmts.last()), stmt_expr(stmts.last()), n);
        lemma_munch_next(stmt_dest(stmts.last()), stmt_expr(stmts.last()), n);
        lemma_pairs_join(ins, ins1, next, n, n, n1, next, n1);
    }
}

/// Generates assembly for the statements of a program, continuing its
/// allocator.
struct Translator {
    ins: Vec<Instruction>,
    temps: TempAllocator,
}

impl Translator {
    fn new(temps: TempAllocator) -> (r: Translator)
        ensures
            r.ins@ == Seq::<Instruction>::empty(),
            r.temps == temps,
    {
        Translator { ins: Vec::new(), temps: temps }
    }

    /// Generates the instructions that compute `e` into `dst`.
    fn exp(&mut self, dst: Operand, e: &Expr)
        requires
            old(self).temps.spec_count() + 2 * binops(*e) <= usize::MAX,
        ensures
            final(self).ins@ == old(self).ins@ + munch(dst, *e, old(self).temps.spec_count()).0,
            final(self).temps.spec_count() == munch(dst, *e, old(self).temps.spec_count()).1,
        decreases e,
    {
        let ghost n0 = self.temps.spec_count();
        let ghost ins0 = self.ins@;
        proof {
            lemma_munch_next(dst, *e, n0);
        }
        let ghost e0 = *e;
        let ins = match e {
            Expr::Constant(c) => Instruction::Mov(dst, Operand::Imm(*c)),
            Expr::Temp(c) => Instruction::Mov(dst, Operand::Temp(*c)),
            Expr::Binop(binop, e1, e2) => {
                let t1 = Operand::Temp(self.temps.gen());
                let t2 = Operand::Temp(self.temps.gen());
                proof {
                    lemma_munch_next(t1, **e1, n0 + 2);
                }
                self.exp(t1, e1);
                self.exp(t2, e2);
                Instruction::Binop(self.op(*binop), dst, t1, Some(t2))
            },
        };
        self.ins.push(ins);
        proof {
            if let Expr::Binop(b, e1, e2) = e0 {
                let t1 = Operand::Temp(Temp(n0 as usize));
                let t2 = Operand::Temp(Temp((n0 + 1) as usize));
                let (i1, n1) = munch(t1, *e1, n0 + 2);
                let (i2, n2) = munch(t2, *e2, n1);
                assert(self.ins@ =~= ins0 + (i1 + i2 + seq![
                    Instruction::Binop(spec_op(b), dst, t1, Some(t2)),
                ]));
            } else {
                assert(self.ins@ =~= ins0 + munch(dst, e0, n0).0);
            }
        }
    }

    fn op(&self, op: Binop) -> (r: Op)
        ensures
            r == spec_op(op),
    {
        match op {
            Binop::Add => Op::Add,
            Binop::Sub => Op::Sub,
            Binop::Mul => Op::Mul,
            Binop::Div => Op::Div,
            Binop::Mod => Op::Mod,
        }
    }

    /// Generates the instructions for one statement: a move computes into its
    /// temporary, a return into the return register.
    fn stm(&mut self, s: &Statement)
        requires
            *s matches Statement::Move(d, _) ==> d is Temp,
            old(self).temps.spec_count() + 2 * binops(stmt_expr(*s)) <= usize::MAX,
        ensures
            final(self).ins@ == old(self).ins@ + munch(
                stmt_dest(*s),
                stmt_expr(*s),
                old(self).temps.spec_count(),
            ).0,
            final(self).temps.spec_count() == munch(
                stmt_dest(*s),
                stmt_expr(*s),
                old(self).temps.spec_count(),
            ).1,
    {
        match s {
            Statement::Move(Expr::Temp(t), e) => self.exp(Operand::Temp(*t), e),
            Statement::Move(_, e) => self.exp(Operand::Reg(Register::EAX), e),
            Statement::Return(e) => {
                self.exp(Operand::Reg(Register::EAX), e);
            },
        }
    }
}

/// A prefix of a program has no more binary operations than the program.
pub proof fn lemma_stmts_binops_prefix(stmts: Seq<Statement>, i: int)
    requires
        0 <= i <= stmts.len(),
    ensures
        stmts_binops(stmts.subrange(0, i)) <= stmts_binops(stmts),
    decreases stmts.len() - i,
{
    if i < stmts.len() {
        lemma_stmts_binops_prefix(stmts, i + 1);
        assert(stmts.subrange(0, i + 1).drop_last() =~= stmts.subrange(0, i));
    } else {
        assert(stmts.subrange(0, i) =~= stmts);
    }
}

proof fn lemma_munch_stmts_next(stmts: Seq<Statement>, next: nat)
    ensures
        munch_stmts(stmts, next).1 == next + 2 * stmts_binops(stmts),
    decreases stmts.len(),
{
    if stmts.len() > 0 {
        lemma_munch_stmts_next(stmts.drop_last(), next);
        lemma_munch_next(
            stmt_dest(stmts.last()),
            stmt_expr(stmts.last()),
            munch_stmts(stmts.drop_last(), next).1,
        );
    }
}

/// Selects the instructions of the program `ir`, statement by statement, with
/// temporaries numbered on from those of `ir`.
pub fn translate(ir: Program) -> (r: Vec<Instruction>)
    requires
        moves_into_temps(ir.statements@),
        ir.temps.spec_count() + 2 * stmts_binops(ir.statements@) <= usize::MAX,
    ensures
        r@ == munch_stmts(ir.statements@, ir.temps.spec_count()).0,
        r@.len() == ir.statements@.len() + 2 * stmts_binops(ir.statements@),
{
    let Program { statements, temps } = ir;
    let ghost stmts = statements@;
    let ghost n0 = temps.spec_count();
    let mut translator = Translator::new(temps);
    let mut i: usize = 0;
    while i < statements.len()
        invariant
            i <= stmts.len(),
            statements@ == stmts,
            moves_into_temps(stmts),
            n0 + 2 * stmts_binops(stmts) <= usize::MAX,
            (translator.ins@, translator.temps.spec_count()) == munch_stmts(
                stmts.subrange(0, i as int),
                n0,
            ),
        decreases stmts.len() - i,
    {
        proof {
            assert(stmts.subrange(0, i + 1).drop_last() =~= stmts.subrange(0, i as int));
            lemma_stmts_binops_prefix(stmts, i + 1);
            lemma_munch_stmts_next(stmts.subrange(0, i as int), n0);
            assert(stmts_binops(stmts.subrange(0, i + 1)) == stmts_binops(stmts.subrange(0, i as int))
                + binops(stmt_expr(stmts[i as int])));
        }
        translator.stm(&statements[i]);
        i = i + 1;
    }
    proof {
        assert(stmts.subrange(0, stmts.len() as int) =~= stmts);
        lemma_program_shape(stmts, n0);
    }
    translator.ins
}

} // verus!
