use crate::btree::BTreeCursor;
use crate::errors::DbError;
use crate::pager::Pager;
use crate::types::{CursorResult, Record, SpecValue, Value};
use vstd::prelude::*;

verus! {

pub type BranchOffset = usize;

pub type CursorID = usize;

pub type PageIdx = usize;

/// Instructions executed once between two yields of `step` are bounded by
/// this budget; a program that neither yields nor halts within it is
/// reported as an `Internal` error (a program-builder bug: such a program
/// never terminates).
pub const STEP_FUEL: usize = 1000000;

/// The closed instruction set: a tagged union the dispatcher matches on
/// exhaustively.
pub enum Insn {
    /// Initialize the program state and jump to the given PC.
    Init { target_pc: BranchOffset },
    /// Open a cursor for reading. No I/O happens synchronously; any needed
    /// page fetch is deferred to the first traversal.
    OpenReadAsync { cursor_id: CursorID, root_page: PageIdx },
    /// Await the completion of the cursor open.
    OpenReadAwait,
    /// Rewind the cursor to the beginning of the B-Tree.
    RewindAsync { cursor_id: CursorID },
    /// Await the completion of the cursor rewind; branch when the tree is
    /// empty.
    RewindAwait { cursor_id: CursorID, pc_if_empty: BranchOffset },
    /// Read a column from the current row of the cursor.
    Column { cursor_id: CursorID, column: usize, dest: usize },
    /// Emit a row of results from the half-open register range.
    ResultRow { register_start: usize, register_end: usize },
    /// Advance the cursor to the next row.
    NextAsync { cursor_id: CursorID },
    /// Await the completion of the cursor advance; branch while rows
    /// remain.
    NextAwait { cursor_id: CursorID, pc_if_next: BranchOffset },
    /// Halt the program.
    Halt,
    /// Start a transaction. A placeholder in this core, preserved
    /// positionally.
    Transaction,
    /// Branch to the given PC.
    Goto { target_pc: BranchOffset },
    /// Write an integer value into a register.
    Integer { value: i64, dest: usize },
    /// Write a string value into a register.
    String8 { value: String, dest: usize },
    /// Read the rowid of the current row.
    RowId { cursor_id: CursorID, dest: usize },
    /// Decrement the given register and advance if the result is positive;
    /// when the register is already zero (or negative) it is left
    /// unchanged and the jump is taken.
    DecrJumpZero { reg: usize, target_pc: BranchOffset },
}

/// Every register an instruction touches lies below `nregs`.
pub open spec fn spec_insn_regs_ok(i: Insn, nregs: int) -> bool {
    match i {
        Insn::Column { dest, .. } => dest < nregs,
        Insn::ResultRow { register_start, register_end } => register_start <= register_end
            && register_end <= nregs,
        Insn::Integer { dest, .. } => dest < nregs,
        Insn::String8 { dest, .. } => dest < nregs,
        Insn::RowId { dest, .. } => dest < nregs,
        Insn::DecrJumpZero { reg, .. } => reg < nregs,
        _ => true,
    }
}

/// Every branch target of an instruction lies below `ninsns`.
pub open spec fn spec_insn_targets_ok(i: Insn, ninsns: int) -> bool {
    match i {
        Insn::Init { target_pc } => target_pc < ninsns,
        Insn::Goto { target_pc } => target_pc < ninsns,
        Insn::RewindAwait { pc_if_empty, .. } => pc_if_empty < ninsns,
        Insn::NextAwait { pc_if_next, .. } => pc_if_next < ninsns,
        Insn::DecrJumpZero { target_pc, .. } => target_pc < ninsns,
        _ => true,
    }
}

/// The instruction at the PC violates an internal invariant: a reference
/// to an unopened cursor, a read from a cursor that stands on no row, a
/// column past the row's width, or `DecrJumpZero` on a non-integer
/// register. Each is a program-builder bug that the dispatcher reports as
/// `Internal`.
pub open spec fn spec_insn_internal_fault(i: Insn, s: ProgramState) -> bool {
    match i {
        Insn::RewindAsync { cursor_id } => !s.cursor_open(cursor_id as int),
        Insn::RewindAwait { cursor_id, .. } => !s.cursor_open(cursor_id as int),
        Insn::NextAsync { cursor_id } => !s.cursor_open(cursor_id as int) || s.cursor_at(
            cursor_id as int,
        ).is_unpositioned(),
        Insn::NextAwait { cursor_id, .. } => !s.cursor_open(cursor_id as int),
        Insn::Column { cursor_id, column, .. } => !s.cursor_open(cursor_id as int)
            || !s.cursor_at(cursor_id as int).is_at() || column >= s.cursor_at(
            cursor_id as int,
        ).cur_row().len(),
        Insn::RowId { cursor_id, .. } => !s.cursor_open(cursor_id as int) || !s.cursor_at(
            cursor_id as int,
        ).is_at(),
        Insn::DecrJumpZero { reg, .. } => !(s.regs()[reg as int] is Integer),
        _ => false,
    }
}

/// Check one instruction against both bounds.
fn insn_ok(i: &Insn, nregs: usize, ninsns: usize) -> (b: bool)
    ensures
        b == (spec_insn_regs_ok(*i, nregs as int) && spec_insn_targets_ok(*i, ninsns as int)),
{
    match i {
        Insn::Init { target_pc } => *target_pc < ninsns,
        Insn::Goto { target_pc } => *target_pc < ninsns,
        Insn::RewindAwait { pc_if_empty, .. } => *pc_if_empty < ninsns,
        Insn::NextAwait { pc_if_next, .. } => *pc_if_next < ninsns,
        Insn::DecrJumpZero { reg, target_pc } => *reg < nregs && *target_pc < ninsns,
        Insn::Column { dest, .. } => *dest < nregs,
        Insn::ResultRow { register_start, register_end } => *register_start <= *register_end
            && *register_end <= nregs,
        Insn::Integer { dest, .. } => *dest < nregs,
        Insn::String8 { dest, .. } => *dest < nregs,
        Insn::RowId { dest, .. } => *dest < nregs,
        _ => true,
    }
}

/// A construction-only object that assigns monotonically increasing
/// register indices and cursor IDs, appends instructions, reserves
/// placeholders that are later fixed up, and produces an immutable
/// `Program` when finalized.
pub struct ProgramBuilder {
    next_free_register: usize,
    next_free_cursor_id: usize,
    insns: Vec<Insn>,
}

impl ProgramBuilder {
    pub closed spec fn spec_next_register(self) -> int {
        self.next_free_register as int
    }

    pub closed spec fn spec_next_cursor(self) -> int {
        self.next_free_cursor_id as int
    }

    pub closed spec fn spec_insns(self) -> Seq<Insn> {
        self.insns@
    }

    /// Every instruction emitted so far references only registers below
    /// the allocation watermark: the watermark only grows, so this is
    /// preserved by every operation and carried into the built program.
    pub open spec fn wf(self) -> bool {
        forall|k: int|
            0 <= k < self.spec_insns().len() ==> spec_insn_regs_ok(
                #[trigger] self.spec_insns()[k],
                self.spec_next_register(),
            )
    }

    pub fn new() -> (b: Self)
        ensures
            b.wf(),
            b.spec_next_register() == 0,
            b.spec_next_cursor() == 0,
            b.spec_insns() == Seq::<Insn>::empty(),
    {
        ProgramBuilder { next_free_register: 0, next_free_cursor_id: 0, insns: Vec::new() }
    }

    pub fn alloc_register(&mut self) -> (reg: usize)
        requires
            old(self).wf(),
            old(self).spec_next_register() < usize::MAX,
        ensures
            final(self).wf(),
            reg == old(self).spec_next_register(),
            final(self).spec_next_register() == old(self).spec_next_register() + 1,
            final(self).spec_next_cursor() == old(self).spec_next_cursor(),
            final(self).spec_insns() == old(self).spec_insns(),
    {
        let reg = self.next_free_register;
        self.next_free_register = self.next_free_register + 1;
        proof {
            assert forall|k: int| 0 <= k < self.spec_insns().len() implies spec_insn_regs_ok(
                #[trigger] self.spec_insns()[k],
                self.spec_next_register(),
            ) by {
                assert(spec_insn_regs_ok(old(self).spec_insns()[k], old(self).spec_next_register()));
            }
        }
        reg
    }

    pub fn next_free_register(&self) -> (reg: usize)
        ensures
            reg == self.spec_next_register(),
    {
        self.next_free_register
    }

    pub fn alloc_cursor_id(&mut self) -> (cursor: usize)
        requires
            old(self).wf(),
            old(self).spec_next_cursor() < usize::MAX,
        ensures
            final(self).wf(),
            cursor == old(self).spec_next_cursor(),
            final(self).spec_next_cursor() == old(self).spec_next_cursor() + 1,
            final(self).spec_next_register() == old(self).spec_next_register(),
            final(self).spec_insns() == old(self).spec_insns(),
    {
        let cursor = self.next_free_cursor_id;
        self.next_free_cursor_id = self.next_free_cursor_id + 1;
        proof {
            assert forall|k: int| 0 <= k < self.spec_insns().len() implies spec_insn_regs_ok(
                #[trigger] self.spec_insns()[k],
                self.spec_next_register(),
            ) by {
                assert(spec_insn_regs_ok(old(self).spec_insns()[k], old(self).spec_next_register()));
            }
        }
        cursor
    }

    /// Reserve an offset by emitting a `Halt` to be overwritten later.
    pub fn emit_placeholder(&mut self) -> (offset: usize)
        requires
            old(self).wf(),
        ensures
            final(self).wf(),
            offset == old(self).spec_insns().len(),
            final(self).spec_insns() == old(self).spec_insns().push(Insn::Halt),
            final(self).spec_next_register() == old(self).spec_next_register(),
            final(self).spec_next_cursor() == old(self).spec_next_cursor(),
    {
        let offset = self.insns.len();
        self.insns.push(Insn::Halt);
        proof {
            assert forall|k: int| 0 <= k < self.spec_insns().len() implies spec_insn_regs_ok(
                #[trigger] self.spec_insns()[k],
                self.spec_next_register(),
            ) by {
                if k < old(self).spec_insns().len() {
                    assert(spec_insn_regs_ok(
                        old(self).spec_insns()[k],
                        old(self).spec_next_register(),
                    ));
                }
            }
        }
        offset
    }

    pub fn emit_insn(&mut self, insn: Insn)
        requires
            old(self).wf(),
            spec_insn_regs_ok(insn, old(self).spec_next_register()),
        ensures
            final(self).wf(),
            final(self).spec_insns() == old(self).spec_insns().push(insn),
            final(self).spec_next_register() == old(self).spec_next_register(),
            final(self).spec_next_cursor() == old(self).spec_next_cursor(),
    {
        self.insns.push(insn);
        proof {
            assert forall|k: int| 0 <= k < self.spec_insns().len() implies spec_insn_regs_ok(
                #[trigger] self.spec_insns()[k],
                self.spec_next_register(),
            ) by {
                if k < old(self).spec_insns().len() {
                    assert(spec_insn_regs_ok(
                        old(self).spec_insns()[k],
                        old(self).spec_next_register(),
                    ));
                }
            }
        }
    }

    /// Overwrite a previously reserved offset (forward-branch patching).
    pub fn fixup_insn(&mut self, offset: usize, insn: Insn)
        requires
            old(self).wf(),
            offset < old(self).spec_insns().len(),
            spec_insn_regs_ok(insn, old(self).spec_next_register()),
        ensures
            final(self).wf(),
            final(self).spec_insns() == old(self).spec_insns().update(offset as int, insn),
            final(self).spec_next_register() == old(self).spec_next_register(),
            final(self).spec_next_cursor() == old(self).spec_next_cursor(),
    {
        self.insns.set(offset, insn);
        proof {
            assert forall|k: int| 0 <= k < self.spec_insns().len() implies spec_insn_regs_ok(
                #[trigger] self.spec_insns()[k],
                self.spec_next_register(),
            ) by {
                if k != offset as int {
                    assert(spec_insn_regs_ok(
                        old(self).spec_insns()[k],
                        old(self).spec_next_register(),
                    ));
                }
            }
        }
    }

    /// The current instruction offset, for branch targets.
    pub fn offset(&self) -> (n: usize)
        ensures
            n == self.spec_insns().len(),
    {
        self.insns.len()
    }

    pub fn build(self) -> (p: Program)
        requires
            self.wf(),
        ensures
            p.max_registers == self.spec_next_register(),
            p.insns@ == self.spec_insns(),
            p.program_type is Default,
            p.regs_wf(),
    {
        Program {
            max_registers: self.next_free_register,
            insns: self.insns,
            program_type: ProgramType::Default,
        }
    }

    pub fn build_pragma_change(self, pragma_to_change: String, value: i64) -> (p: Program)
        requires
            self.wf(),
        ensures
            p.max_registers == self.spec_next_register(),
            p.insns@ == self.spec_insns(),
            p.program_type matches ProgramType::PragmaChange(n, v) && n@ == pragma_to_change@ && v
                == value,
            p.regs_wf(),
    {
        Program {
            max_registers: self.next_free_register,
            insns: self.insns,
            program_type: ProgramType::PragmaChange(pragma_to_change, value),
        }
    }
}

/// Outcome of one `step` call.
#[derive(Debug)]
pub enum StepResult {
    /// The program halted.
    Done,
    /// A page fetch is pending: pump the I/O backend, then call `step`
    /// again with the same program state.
    IO,
    /// A result row was materialized.
    Row(Record),
}

/// The program state describes the environment in which the program
/// executes: program counter, register file, and open cursors. It is
/// constructed from a program's `max_registers`, reused across steps, and
/// discarded when the program halts or is abandoned.
pub struct ProgramState {
    pub pc: usize,
    pub cursors: Vec<Option<BTreeCursor>>,
    pub registers: Vec<Value>,
    /// Width of the first emitted result row; `None` until one is emitted.
    pub result_columns: Option<usize>,
}

/// The register file as a sequence of mathematical values.
pub open spec fn spec_regs(registers: Seq<Value>) -> Seq<SpecValue> {
    Seq::new(registers.len(), |i: int| registers[i]@)
}

impl ProgramState {
    /// The register file as a sequence of mathematical values.
    pub open spec fn regs(self) -> Seq<SpecValue> {
        spec_regs(self.registers@)
    }

    /// True when cursor `c` has been opened.
    pub open spec fn cursor_open(self, c: int) -> bool {
        0 <= c < self.cursors@.len() && self.cursors@[c] is Some
    }

    /// The open cursor at slot `c`.
    pub open spec fn cursor_at(self, c: int) -> BTreeCursor {
        self.cursors@[c]->Some_0
    }

    /// Well-formedness with respect to a program and a pager: the register
    /// file has the program's size, the PC is in bounds, and every open
    /// cursor stands on a decoded cell of a resident page.
    pub open spec fn wf(self, prog: Program, pager: Pager) -> bool {
        &&& self.registers@.len() == prog.max_registers
        &&& self.pc <= prog.insns@.len()
        &&& forall|c: int| self.cursor_open(c) ==> (#[trigger] self.cursor_at(c)).valid_at(pager)
    }

    pub fn new(max_registers: usize) -> (s: Self)
        ensures
            s.pc == 0,
            s.registers@.len() == max_registers,
            forall|i: int| 0 <= i < max_registers ==> s.regs()[i] is Null,
            forall|c: int| !s.cursor_open(c),
            s.result_columns is None,
    {
        let mut registers: Vec<Value> = Vec::new();
        while registers.len() < max_registers
            invariant
                registers@.len() <= max_registers,
                forall|i: int| 0 <= i < registers@.len() ==> #[trigger] registers@[i] is Null,
            decreases max_registers - registers@.len(),
        {
            registers.push(Value::Null);
        }
        ProgramState { pc: 0, cursors: Vec::new(), registers, result_columns: None }
    }

    /// Reinitialize the state for a fresh run of the same program: the PC
    /// returns to zero, every register to `Null`, and the cursors are
    /// discarded.
    pub fn reset(&mut self)
        ensures
            final(self).pc == 0,
            final(self).registers@.len() == old(self).registers@.len(),
            forall|i: int| 0 <= i < final(self).regs().len() ==> final(self).regs()[i] is Null,
            forall|c: int| !final(self).cursor_open(c),
            final(self).result_columns is None,
    {
        self.pc = 0;
        self.result_columns = None;
        let n = self.registers.len();
        let mut registers: Vec<Value> = Vec::new();
        while registers.len() < n
            invariant
                registers@.len() <= n,
                forall|i: int| 0 <= i < registers@.len() ==> #[trigger] registers@[i] is Null,
            decreases n - registers@.len(),
        {
            registers.push(Value::Null);
        }
        self.registers = registers;
        self.cursors = Vec::new();
    }

    /// After the first emitted row, the number of columns of that row;
    /// before any row, the width of the register file.
    pub fn column_count(&self) -> (n: usize)
        ensures
            self.result_columns matches Some(m) ==> n == m,
            self.result_columns is None ==> n == self.regs().len(),
    {
        match self.result_columns {
            Some(m) => m,
            None => self.registers.len(),
        }
    }

    /// A printable rendering of register `i`.
    pub fn column(&self, i: usize) -> (r: Option<String>)
        requires
            i < self.regs().len(),
        ensures
            r matches Some(s) && s@ == spec_rendering(self.regs()[i as int]),
    {
        Some(debug_string(&self.registers[i]))
    }
}

/// The text std's formatter renders for a value: a function of the value
/// alone.
pub uninterp spec fn spec_rendering(v: SpecValue) -> Seq<char>;

/// Relies on std's formatter over the derived `Debug` implementation of
/// `Value`: renders one register for diagnostics; the rendering depends on
/// the value alone.
#[verifier::external_body]
fn debug_string(v: &Value) -> (r: String)
    ensures
        r@ == spec_rendering(v@),
{
    format!("{:?}", v)
}

pub enum ProgramType {
    Default,
    PragmaChange(String, i64),
}

/// An immutable bytecode program: its register-file size, its ordered
/// instructions, and its kind.
pub struct Program {
    pub max_registers: usize,
    pub insns: Vec<Insn>,
    pub program_type: ProgramType,
}

/// Materialize a record from the half-open register range
/// `registers[register_start..register_end)`.
pub fn make_record(registers: &Vec<Value>, register_end: usize, register_start: usize) -> (r:
    Record)
    requires
        register_start <= register_end <= registers@.len(),
    ensures
        r@ == spec_regs(registers@).subrange(register_start as int, register_end as int),
{
    let mut values: Vec<Value> = Vec::new();
    let mut i: usize = register_start;
    while i < register_end
        invariant
            register_start <= i <= register_end <= registers@.len(),
            values@.len() == i - register_start,
            forall|j: int| 0 <= j < values@.len() ==> #[trigger] values@[j]@ == registers@[
                register_start + j]@,
        decreases register_end - i,
    {
        values.push(registers[i].clone());
        i = i + 1;
    }
    let r = Record::new(values);
    proof {
        assert(r@ =~= spec_regs(registers@).subrange(register_start as int, register_end as int));
    }
    r
}

impl Program {
    /// Register references stay below `max_registers` in every
    /// instruction: what the builder guarantees of everything it emits.
    pub open spec fn regs_wf(self) -> bool {
        forall|k: int|
            0 <= k < self.insns@.len() ==> spec_insn_regs_ok(
                #[trigger] self.insns@[k],
                self.max_registers as int,
            )
    }

    /// Branch targets stay inside the program in every instruction: what
    /// forward-branch fixups must have established.
    pub open spec fn targets_wf(self) -> bool {
        forall|k: int|
            0 <= k < self.insns@.len() ==> spec_insn_targets_ok(
                #[trigger] self.insns@[k],
                self.insns@.len() as int,
            )
    }

    pub open spec fn wf(self) -> bool {
        self.regs_wf() && self.targets_wf()
    }

    /// Check both well-formedness bounds of every instruction, so an
    /// unverified caller can establish `wf` before stepping.
    pub fn validate(&self) -> (b: bool)
        ensures
            b == self.wf(),
    {
        let n = self.insns.len();
        let mut k: usize = 0;
        while k < n
            invariant
                n == self.insns@.len(),
                k <= n,
                forall|j: int|
                    0 <= j < k ==> spec_insn_regs_ok(
                        #[trigger] self.insns@[j],
                        self.max_registers as int,
                    ) && spec_insn_targets_ok(self.insns@[j], self.insns@.len() as int),
            decreases n - k,
        {
            if !insn_ok(&self.insns[k], self.max_registers, n) {
                return false;
            }
            k = k + 1;
        }
        true
    }

    /// Execute the single instruction at the current PC. `Ok(None)` means
    /// the dispatch loop continues; `Ok(Some(..))` is handed to the caller
    /// of `step`. The contract states the exact effect of every
    /// instruction; in particular:
    /// - an instruction that returns `IO` leaves the program state exactly
    ///   as it was, so the retry after the page arrives cannot
    ///   double-advance or skip cells;
    /// - an instruction that references a cursor that no prior instruction
    ///   opened stops with an `Internal` error, and only `OpenReadAsync`
    ///   makes a cursor open;
    /// - `DecrJumpZero` on a non-positive integer leaves the register
    ///   unchanged and takes the jump; on a positive one it decrements and
    ///   advances; on a non-integer it is an `Internal` error.
    #[verifier::rlimit(60)]
    pub fn exec_insn(&self, state: &mut ProgramState, pager: &mut Pager) -> (r: Result<
        Option<StepResult>,
        DbError,
    >)
        requires
            self.wf(),
            old(pager).wf(),
            old(state).wf(*self, *old(pager)),
            old(state).pc < self.insns@.len(),
        ensures
            final(pager).wf(),
            old(pager).extended_by(*final(pager)),
            final(state).wf(*self, *final(pager)),
            r matches Ok(Some(StepResult::IO)) ==> state_eq(*old(state), *final(state)) && (
            self.insns@[old(state).pc as int] is RewindAsync || self.insns@[old(state).pc as int]
                is NextAsync),
            r matches Ok(Some(StepResult::Done)) ==> state_eq(*old(state), *final(state))
                && self.insns@[old(state).pc as int] is Halt,
            r matches Ok(Some(StepResult::Row(rec))) ==> {
                &&& self.insns@[old(state).pc as int] matches Insn::ResultRow {
                    register_start,
                    register_end,
                } && rec@ == old(state).regs().subrange(register_start as int, register_end as int)
                &&& final(state).pc == old(state).pc + 1
                &&& final(state).regs() == old(state).regs()
                &&& final(state).cursors@ == old(state).cursors@
            },
            r is Err ==> state_eq(*old(state), *final(state)),
            forall|c: int| #[trigger] final(state).cursor_open(c) ==> old(state).cursor_open(c)
                || (self.insns@[old(state).pc as int] matches Insn::OpenReadAsync { cursor_id, .. }
                && cursor_id == c),
            self.insns@[old(state).pc as int] is Halt ==> r matches Ok(Some(StepResult::Done)),
            self.insns@[old(state).pc as int] matches Insn::ResultRow {
                register_start,
                register_end,
            } ==> (r matches Ok(Some(StepResult::Row(rec))) && rec@ == old(state).regs().subrange(
                register_start as int,
                register_end as int,
            ) && final(state).pc == old(state).pc + 1 && final(state).registers@ == old(state).registers@ && final(state).cursors@ == old(state).cursors@ && final(state).result_columns == (if old(state).result_columns is Some {
                old(state).result_columns
            } else {
                Some((register_end - register_start) as usize)
            })),
            spec_insn_internal_fault(self.insns@[old(state).pc as int], *old(state)) ==> r == Err::<
                Option<StepResult>,
                DbError,
            >(DbError::Internal),
            !(self.insns@[old(state).pc as int] is ResultRow) ==> final(state).result_columns
                == old(state).result_columns,
            self.insns@[old(state).pc as int] matches Insn::Init { target_pc } ==> r matches Ok(
                None,
            ) && final(state).pc == target_pc && final(state).registers@ == old(state).registers@
                && final(state).cursors@ == old(state).cursors@,
            self.insns@[old(state).pc as int] matches Insn::Goto { target_pc } ==> r matches Ok(
                None,
            ) && final(state).pc == target_pc && final(state).registers@ == old(state).registers@
                && final(state).cursors@ == old(state).cursors@,
            (self.insns@[old(state).pc as int] is Transaction || self.insns@[old(state).pc as int]
                is OpenReadAwait) ==> (r matches Ok(None)) && final(state).pc == old(state).pc + 1
                && final(state).registers@ == old(state).registers@ && final(state).cursors@ == old(state).cursors@,
            self.insns@[old(state).pc as int] matches Insn::Integer { value, dest } ==> (r matches Ok(None)) && final(state).pc == old(state).pc + 1 && final(state).regs()
                == old(state).regs().update(dest as int, SpecValue::Integer(value as int)) && final(state).cursors@ == old(state).cursors@,
            self.insns@[old(state).pc as int] matches Insn::String8 { value, dest } ==> (r matches Ok(None)) && final(state).pc == old(state).pc + 1 && final(state).regs()
                == old(state).regs().update(dest as int, SpecValue::Text(value@)) && final(state).cursors@ == old(state).cursors@,
            self.insns@[old(state).pc as int] matches Insn::DecrJumpZero { reg, target_pc } ==> {
                &&& (old(state).regs()[reg as int] matches SpecValue::Integer(n) ==> {
                    &&& (n > 0 ==> (r matches Ok(None)) && final(state).pc == old(state).pc + 1
                        && final(state).regs() == old(state).regs().update(
                        reg as int,
                        SpecValue::Integer(n - 1),
                    ) && final(state).cursors@ == old(state).cursors@)
                    &&& (n <= 0 ==> (r matches Ok(None)) && final(state).pc == target_pc && final(state).regs() == old(state).regs() && final(state).cursors@ == old(state).cursors@)
                })
                &&& (!(old(state).regs()[reg as int] is Integer) ==> r == Err::<
                    Option<StepResult>,
                    DbError,
                >(DbError::Internal))
            },
            self.insns@[old(state).pc as int] matches Insn::OpenReadAsync { cursor_id, root_page }
                ==> (r matches Ok(None)) && final(state).pc == old(state).pc + 1 && final(state).registers@ == old(state).registers@ && final(state).cursor_open(cursor_id as int)
                && final(state).cursor_at(cursor_id as int).is_unpositioned() && final(state).cursor_at(cursor_id as int).spec_root() == root_page && cursors_except(
                *old(state),
                *final(state),
                cursor_id as int,
            ),
            self.insns@[old(state).pc as int] matches Insn::RewindAsync { cursor_id } ==> {
                &&& (!old(state).cursor_open(cursor_id as int) ==> r == Err::<
                    Option<StepResult>,
                    DbError,
                >(DbError::Internal))
                &&& (old(state).cursor_open(cursor_id as int) ==> {
                    &&& final(state).registers@ == old(state).registers@
                    &&& ((final(pager).ready(old(state).cursor_at(cursor_id as int).spec_root())
                        && crate::btree::spec_page_type(
                        final(pager).page_at(old(state).cursor_at(cursor_id as int).spec_root()),
                        old(state).cursor_at(cursor_id as int).spec_root(),
                    ) == crate::btree::LEAF_PAGE && crate::btree::spec_ncells(
                        final(pager).page_at(old(state).cursor_at(cursor_id as int).spec_root()),
                        old(state).cursor_at(cursor_id as int).spec_root(),
                    ) == 0) ==> (r matches Ok(None)) && final(state).cursor_at(
                        cursor_id as int,
                    ).is_exhausted())
                    &&& (r matches Ok(None) ==> {
                        &&& final(state).pc == old(state).pc + 1
                        &&& final(state).cursor_open(cursor_id as int)
                        &&& cursors_except(*old(state), *final(state), cursor_id as int)
                        &&& {
                            let c = final(state).cursor_at(cursor_id as int);
                            &&& c.is_at() || c.is_exhausted()
                            &&& c.spec_root() == old(state).cursor_at(cursor_id as int).spec_root()
                            &&& c.valid_at(*final(pager))
                            &&& ((final(pager).ready(c.spec_root())
                                && crate::btree::spec_page_type(
                                final(pager).page_at(c.spec_root()),
                                c.spec_root(),
                            ) == crate::btree::LEAF_PAGE) ==> {
                                &&& (c.is_exhausted() <==> crate::btree::spec_ncells(
                                    final(pager).page_at(c.spec_root()),
                                    c.spec_root(),
                                ) == 0)
                                &&& (c.is_at() ==> c.leaf_page() == c.spec_root() && c.leaf_cell()
                                    == 0)
                            })
                        }
                    })
                })
            },
            self.insns@[old(state).pc as int] matches Insn::RewindAwait { cursor_id, pc_if_empty }
                ==> {
                &&& (!old(state).cursor_open(cursor_id as int) ==> r == Err::<
                    Option<StepResult>,
                    DbError,
                >(DbError::Internal))
                &&& (old(state).cursor_open(cursor_id as int) ==> (r matches Ok(None)) && final(state).registers@ == old(state).registers@ && final(state).cursors@ == old(state).cursors@ && final(state).pc == (if !old(state).cursor_at(
                    cursor_id as int,
                ).is_at() {
                    pc_if_empty as int
                } else {
                    old(state).pc + 1
                }))
            },
            self.insns@[old(state).pc as int] matches Insn::NextAwait { cursor_id, pc_if_next }
                ==> {
                &&& (!old(state).cursor_open(cursor_id as int) ==> r == Err::<
                    Option<StepResult>,
                    DbError,
                >(DbError::Internal))
                &&& (old(state).cursor_open(cursor_id as int) ==> (r matches Ok(None)) && final(state).registers@ == old(state).registers@ && final(state).cursors@ == old(state).cursors@ && final(state).pc == (if old(state).cursor_at(
                    cursor_id as int,
                ).is_at() {
                    pc_if_next as int
                } else {
                    old(state).pc + 1
                }))
            },
            self.insns@[old(state).pc as int] matches Insn::NextAsync { cursor_id } ==> {
                &&& (!old(state).cursor_open(cursor_id as int) ==> r == Err::<
                    Option<StepResult>,
                    DbError,
                >(DbError::Internal))
                &&& (old(state).cursor_open(cursor_id as int) ==> {
                    &&& final(state).registers@ == old(state).registers@
                    &&& (old(state).cursor_at(cursor_id as int).is_unpositioned() ==> r == Err::<
                        Option<StepResult>,
                        DbError,
                    >(DbError::Internal))
                    &&& (r matches Ok(None) ==> {
                        &&& final(state).pc == old(state).pc + 1
                        &&& final(state).cursor_open(cursor_id as int)
                        &&& cursors_except(*old(state), *final(state), cursor_id as int)
                        &&& {
                            let c = final(state).cursor_at(cursor_id as int);
                            &&& c.is_at() || c.is_exhausted()
                            &&& c.spec_root() == old(state).cursor_at(cursor_id as int).spec_root()
                            &&& c.valid_at(*final(pager))
                        }
                        &&& (old(state).cursor_at(cursor_id as int).is_exhausted() ==> final(state).cursor_at(cursor_id as int).is_exhausted())
                        &&& ((old(state).cursor_at(cursor_id as int).is_at() && old(state).cursor_at(cursor_id as int).leaf_cell() + 1 >= crate::btree::spec_ncells(
                            old(pager).page_at(old(state).cursor_at(cursor_id as int).leaf_page()),
                            old(state).cursor_at(cursor_id as int).leaf_page(),
                        ) && old(state).cursor_at(cursor_id as int).path_len() == 1) ==> final(state).cursor_at(cursor_id as int).is_exhausted())
                    })
                })
            },
            self.insns@[old(state).pc as int] matches Insn::Column { cursor_id, column, dest }
                ==> {
                &&& ((!old(state).cursor_open(cursor_id as int) || !old(state).cursor_at(
                    cursor_id as int,
                ).is_at()) ==> r == Err::<Option<StepResult>, DbError>(DbError::Internal))
                &&& ((old(state).cursor_open(cursor_id as int) && old(state).cursor_at(
                    cursor_id as int,
                ).is_at() && column < old(state).cursor_at(cursor_id as int).cur_row().len()) ==> (r matches Ok(None)) && final(state).pc == old(state).pc + 1 && final(state).regs()
                    == old(state).regs().update(
                    dest as int,
                    old(state).cursor_at(cursor_id as int).cur_row()[column as int],
                ) && final(state).cursors@ == old(state).cursors@)
                &&& ((old(state).cursor_open(cursor_id as int) && old(state).cursor_at(
                    cursor_id as int,
                ).is_at() && column >= old(state).cursor_at(cursor_id as int).cur_row().len())
                    ==> r == Err::<Option<StepResult>, DbError>(DbError::Internal))
            },
            self.insns@[old(state).pc as int] matches Insn::RowId { cursor_id, dest } ==> {
                &&& ((!old(state).cursor_open(cursor_id as int) || !old(state).cursor_at(
                    cursor_id as int,
                ).is_at()) ==> r == Err::<Option<StepResult>, DbError>(DbError::Internal))
                &&& ((old(state).cursor_open(cursor_id as int) && old(state).cursor_at(
                    cursor_id as int,
                ).is_at()) ==> (r matches Ok(None)) && final(state).pc == old(state).pc + 1 && final(state).regs() == old(state).regs().update(
                    dest as int,
                    SpecValue::Integer(old(state).cursor_at(cursor_id as int).cur_rowid() as int),
                ) && final(state).cursors@ == old(state).cursors@)
            },
    {
        let ghost pre = *state;
        let insns_len: usize = self.insns.len();
        proof {
            assert(self.insns@.len() == insns_len);
        }
        let insn = &self.insns[state.pc];
        proof {
            assert(spec_insn_regs_ok(self.insns@[state.pc as int], self.max_registers as int));
            assert(spec_insn_targets_ok(
                self.insns@[state.pc as int],
                self.insns@.len() as int,
            ));
        }
        match insn {
            Insn::Init { target_pc } => {
                state.pc = *target_pc;
                proof {
                    lemma_state_cursors_extended(pre, *state, *old(pager), *pager);
                    assert(old(pager).extended_by(*pager));
                }
                Ok(None)
            },
            Insn::Goto { target_pc } => {
                state.pc = *target_pc;
                proof {
                    lemma_state_cursors_extended(pre, *state, *old(pager), *pager);
                    assert(old(pager).extended_by(*pager));
                }
                Ok(None)
            },
            Insn::Halt => {
                proof {
                    lemma_state_cursors_extended(pre, *state, *old(pager), *pager);
                    assert(old(pager).extended_by(*pager));
                }
                Ok(Some(StepResult::Done))
            },
            Insn::Transaction => {
                state.pc = state.pc + 1;
                proof {
                    lemma_state_cursors_extended(pre, *state, *old(pager), *pager);
                    assert(old(pager).extended_by(*pager));
                }
                Ok(None)
            },
            Insn::OpenReadAwait => {
                state.pc = state.pc + 1;
                proof {
                    lemma_state_cursors_extended(pre, *state, *old(pager), *pager);
                    assert(old(pager).extended_by(*pager));
                }
                Ok(None)
            },
            Insn::Integer { value, dest } => {
                state.registers.set(*dest, Value::Integer(*value));
                state.pc = state.pc + 1;
                proof {
                    assert(state.regs() =~= pre.regs().update(
                        *dest as int,
                        SpecValue::Integer(*value as int),
                    ));
                    lemma_state_cursors_extended(pre, *state, *old(pager), *pager);
                }
                Ok(None)
            },
            Insn::String8 { value, dest } => {
                state.registers.set(*dest, Value::Text(value.clone()));
                state.pc = state.pc + 1;
                proof {
                    assert(state.regs() =~= pre.regs().update(
                        *dest as int,
                        SpecValue::Text(value@),
                    ));
                    lemma_state_cursors_extended(pre, *state, *old(pager), *pager);
                }
                Ok(None)
            },
            Insn::DecrJumpZero { reg, target_pc } => {
                let n: i64 = match &state.registers[*reg] {
                    Value::Integer(n) => *n,
                    _ => {
                        return Err(DbError::Internal);
                    },
                };
                if n > 0 {
                    state.registers.set(*reg, Value::Integer(n - 1));
                    state.pc = state.pc + 1;
                    proof {
                        assert(state.regs() =~= pre.regs().update(
                            *reg as int,
                            SpecValue::Integer(n - 1),
                        ));
                    }
                } else {
                    state.pc = *target_pc;
                }
                proof {
                    lemma_state_cursors_extended(pre, *state, *old(pager), *pager);
                    assert(old(pager).extended_by(*pager));
                }
                Ok(None)
            },
            Insn::ResultRow { register_start, register_end } => {
                let record = make_record(&state.registers, *register_end, *register_start);
                if state.result_columns.is_none() {
                    state.result_columns = Some(*register_end - *register_start);
                }
                state.pc = state.pc + 1;
                proof {
                    lemma_state_cursors_extended(pre, *state, *old(pager), *pager);
                    assert(old(pager).extended_by(*pager));
                }
                Ok(Some(StepResult::Row(record)))
            },
            Insn::OpenReadAsync { cursor_id, root_page } => {
                let cid = *cursor_id;
                while state.cursors.len() <= cid
                    invariant
                        state.pc == pre.pc,
                        state.registers@ == pre.registers@,
                        state.result_columns == pre.result_columns,
                        state.cursors@.len() >= pre.cursors@.len(),
                        forall|c: int|
                            0 <= c < pre.cursors@.len() ==> state.cursors@[c] == pre.cursors@[c],
                        forall|c: int|
                            pre.cursors@.len() <= c < state.cursors@.len()
                                ==> #[trigger] state.cursors@[c] is None,
                    decreases cid + 1 - state.cursors@.len(),
                {
                    state.cursors.push(None);
                }
                state.cursors.set(cid, Some(BTreeCursor::new(*root_page)));
                state.pc = state.pc + 1;
                proof {
                    assert forall|c: int| state.cursor_open(c) implies (
                    #[trigger] state.cursor_at(c)).valid_at(*pager) by {
                        if c != cid as int {
                            assert(pre.cursor_open(c) && pre.cursor_at(c) == state.cursor_at(c));
                        } else {
                            BTreeCursor::lemma_unpositioned_valid(state.cursor_at(c), *pager);
                        }
                    }
                    assert forall|c: int| c != cid as int implies #[trigger] state.cursor_open(c)
                        == pre.cursor_open(c) && (pre.cursor_open(c) ==> state.cursor_at(c)
                        == pre.cursor_at(c)) by {
                        if c < pre.cursors@.len() {
                        } else {
                            assert(!pre.cursor_open(c));
                        }
                    }
                }
                Ok(None)
            },
            Insn::RewindAsync { cursor_id } => {
                let cid = *cursor_id;
                let mut cur = match take_cursor(&mut state.cursors, cid) {
                    None => {
                        proof {
                            restore_none(pre.cursors@, state.cursors@, cid as int);
                            assert(state.cursors@ == pre.cursors@);
                            lemma_state_cursors_extended(pre, *state, *old(pager), *pager);
                        }
                        return Err(DbError::Internal);
                    },
                    Some(c) => c,
                };
                let res = cur.rewind(pager);
                state.cursors.set(cid, Some(cur));
                match res {
                    Err(e) => {
                        proof {
                            assert(state.cursors@ =~= pre.cursors@);
                            lemma_state_cursors_extended(pre, *state, *old(pager), *pager);
                        }
                        Err(e)
                    },
                    Ok(CursorResult::IO) => {
                        proof {
                            assert(state.cursors@ =~= pre.cursors@);
                            lemma_state_cursors_extended(pre, *state, *old(pager), *pager);
                        }
                        Ok(Some(StepResult::IO))
                    },
                    Ok(CursorResult::Ready) => {
                        state.pc = state.pc + 1;
                        proof {
                            assert(state.cursors@ =~= pre.cursors@.update(
                                cid as int,
                                state.cursors@[cid as int],
                            ));
                            lemma_state_cursors_updated(pre, *state, cid as int, *old(pager), *pager);
                        }
                        Ok(None)
                    },
                }
            },
            Insn::NextAsync { cursor_id } => {
                let cid = *cursor_id;
                let mut cur = match take_cursor(&mut state.cursors, cid) {
                    None => {
                        proof {
                            restore_none(pre.cursors@, state.cursors@, cid as int);
                            assert(state.cursors@ == pre.cursors@);
                            lemma_state_cursors_extended(pre, *state, *old(pager), *pager);
                        }
                        return Err(DbError::Internal);
                    },
                    Some(c) => c,
                };
                let ghost cur0 = cur;
                proof {
                    assert(pre.cursor_at(cid as int) == cur0);
                    assert(cur0.valid_at(*old(pager)));
                }
                let res = cur.next(pager);
                state.cursors.set(cid, Some(cur));
                match res {
                    Err(e) => {
                        proof {
                            assert(state.cursors@ =~= pre.cursors@);
                            lemma_state_cursors_extended(pre, *state, *old(pager), *pager);
                        }
                        Err(e)
                    },
                    Ok(CursorResult::IO) => {
                        proof {
                            assert(state.cursors@ =~= pre.cursors@);
                            lemma_state_cursors_extended(pre, *state, *old(pager), *pager);
                        }
                        Ok(Some(StepResult::IO))
                    },
                    Ok(CursorResult::Ready) => {
                        state.pc = state.pc + 1;
                        proof {
                            assert(state.cursors@ =~= pre.cursors@.update(
                                cid as int,
                                state.cursors@[cid as int],
                            ));
                            lemma_state_cursors_updated(pre, *state, cid as int, *old(pager), *pager);
                        }
                        Ok(None)
                    },
                }
            },
            Insn::RewindAwait { cursor_id, pc_if_empty } => {
                let cid = *cursor_id;
                if cid >= state.cursors.len() {
                    return Err(DbError::Internal);
                }
                let empty = match &state.cursors[cid] {
                    None => {
                        return Err(DbError::Internal);
                    },
                    Some(c) => c.is_empty(),
                };
                if empty {
                    state.pc = *pc_if_empty;
                } else {
                    state.pc = state.pc + 1;
                }
                proof {
                    lemma_state_cursors_extended(pre, *state, *old(pager), *pager);
                    assert(old(pager).extended_by(*pager));
                }
                Ok(None)
            },
            Insn::NextAwait { cursor_id, pc_if_next } => {
                let cid = *cursor_id;
                if cid >= state.cursors.len() {
                    return Err(DbError::Internal);
                }
                let empty = match &state.cursors[cid] {
                    None => {
                        return Err(DbError::Internal);
                    },
                    Some(c) => c.is_empty(),
                };
                if !empty {
                    state.pc = *pc_if_next;
                } else {
                    state.pc = state.pc + 1;
                }
                proof {
                    lemma_state_cursors_extended(pre, *state, *old(pager), *pager);
                    assert(old(pager).extended_by(*pager));
                }
                Ok(None)
            },
            Insn::Column { cursor_id, column, dest } => {
                let cid = *cursor_id;
                if cid >= state.cursors.len() {
                    return Err(DbError::Internal);
                }
                let v: Value = match &state.cursors[cid] {
                    None => {
                        return Err(DbError::Internal);
                    },
                    Some(c) => match c.record() {
                        None => {
                            return Err(DbError::Internal);
                        },
                        Some(rec) => {
                            if *column >= rec.values.len() {
                                return Err(DbError::Internal);
                            }
                            rec.values[*column].clone()
                        },
                    },
                };
                state.registers.set(*dest, v);
                state.pc = state.pc + 1;
                proof {
                    assert(state.regs() =~= pre.regs().update(
                        *dest as int,
                        pre.cursor_at(cid as int).cur_row()[*column as int],
                    ));
                    lemma_state_cursors_extended(pre, *state, *old(pager), *pager);
                }
                Ok(None)
            },
            Insn::RowId { cursor_id, dest } => {
                let cid = *cursor_id;
                if cid >= state.cursors.len() {
                    return Err(DbError::Internal);
                }
                let rid: i64 = match &state.cursors[cid] {
                    None => {
                        return Err(DbError::Internal);
                    },
                    Some(c) => match c.rowid() {
                        None => {
                            return Err(DbError::Internal);
                        },
                        Some(rid) => rid,
                    },
                };
                state.registers.set(*dest, Value::Integer(rid));
                state.pc = state.pc + 1;
                proof {
                    assert(state.regs() =~= pre.regs().update(
                        *dest as int,
                        SpecValue::Integer(pre.cursor_at(cid as int).cur_rowid() as int),
                    ));
                    lemma_state_cursors_extended(pre, *state, *old(pager), *pager);
                }
                Ok(None)
            },
        }
    }

    /// Dispatch instructions from the current PC until a result row is
    /// materialized (`Row`), a page fetch is pending (`IO`: pump the I/O
    /// backend so the pending pages become ready, then call `step` again
    /// with the same state), or the program halts (`Done`). When `IO` is
    /// returned the program state is exactly as it was when the pending
    /// instruction started, and the PC still names that instruction, so
    /// the retry re-executes it from scratch.
    pub fn step(&self, state: &mut ProgramState, pager: &mut Pager) -> (r: Result<
        StepResult,
        DbError,
    >)
        requires
            self.wf(),
            old(pager).wf(),
            old(state).wf(*self, *old(pager)),
        ensures
            final(pager).wf(),
            old(pager).extended_by(*final(pager)),
            final(state).wf(*self, *final(pager)),
            r matches Ok(StepResult::IO) ==> final(state).pc < self.insns@.len() && (self.insns@[
                final(state).pc as int] is RewindAsync || self.insns@[final(state).pc as int]
                is NextAsync),
            r matches Ok(StepResult::Done) ==> final(state).pc < self.insns@.len()
                && self.insns@[final(state).pc as int] is Halt,
            r matches Ok(StepResult::Row(rec)) ==> exists|p0: int|
                0 <= p0 < self.insns@.len() && final(state).pc == p0 + 1 && ((
                #[trigger] self.insns@[p0]) matches Insn::ResultRow {
                    register_start,
                    register_end,
                } && rec@ == final(state).regs().subrange(
                    register_start as int,
                    register_end as int,
                )),
            (old(state).pc < self.insns@.len() && self.insns@[old(state).pc as int] is Halt) ==> (r
                matches Ok(StepResult::Done)) && state_eq(*old(state), *final(state)),
            old(state).pc < self.insns@.len() ==> (self.insns@[old(state).pc as int]
                matches Insn::ResultRow { register_start, register_end } ==> (r matches Ok(
                StepResult::Row(rec),
            ) && rec@ == old(state).regs().subrange(register_start as int, register_end as int)
                && final(state).pc == old(state).pc + 1 && final(state).registers@ == old(state).registers@ && final(state).cursors@ == old(state).cursors@)),
            (old(state).pc < self.insns@.len() && spec_insn_internal_fault(
                self.insns@[old(state).pc as int],
                *old(state),
            )) ==> r == Err::<StepResult, DbError>(DbError::Internal) && state_eq(
                *old(state),
                *final(state),
            ),
    {
        if state.pc >= self.insns.len() {
            return Err(DbError::Internal);
        }
        // dispatch the entry instruction: its outcome is owed exactly
        match self.exec_insn(state, pager) {
            Err(e) => {
                return Err(e);
            },
            Ok(Some(StepResult::Row(rec))) => {
                proof {
                    assert(0 <= old(state).pc < self.insns@.len() && state.pc == old(state).pc + 1
                        && (self.insns@[old(state).pc as int] matches Insn::ResultRow {
                        register_start,
                        register_end,
                    } && rec@ == old(state).regs().subrange(
                        register_start as int,
                        register_end as int,
                    )));
                    assert(state.regs() == old(state).regs());
                }
                return Ok(StepResult::Row(rec));
            },
            Ok(Some(StepResult::IO)) => {
                return Ok(StepResult::IO);
            },
            Ok(Some(StepResult::Done)) => {
                return Ok(StepResult::Done);
            },
            Ok(None) => {},
        }
        // the entry instruction neither yielded nor faulted: keep dispatching
        let mut fuel: usize = STEP_FUEL - 1;
        loop
            invariant
                self.wf(),
                pager.wf(),
                state.wf(*self, *pager),
                old(pager).extended_by(*pager),
                old(state).pc < self.insns@.len(),
                !(self.insns@[old(state).pc as int] is Halt),
                !(self.insns@[old(state).pc as int] is ResultRow),
                !spec_insn_internal_fault(self.insns@[old(state).pc as int], *old(state)),
            decreases fuel,
        {
            if fuel == 0 {
                return Err(DbError::Internal);
            }
            fuel = fuel - 1;
            if state.pc >= self.insns.len() {
                return Err(DbError::Internal);
            }
            let ghost mid_pager = *pager;
            let ghost mid_state = *state;
            let res = self.exec_insn(state, pager);
            proof {
                Pager::lemma_extended_trans(*old(pager), mid_pager, *pager);
            }
            match res {
                Err(e) => {
                    return Err(e);
                },
                Ok(Some(StepResult::Row(rec))) => {
                    proof {
                        assert(0 <= mid_state.pc < self.insns@.len() && state.pc == mid_state.pc
                            + 1 && (self.insns@[mid_state.pc as int] matches Insn::ResultRow {
                            register_start,
                            register_end,
                        } && rec@ == mid_state.regs().subrange(
                            register_start as int,
                            register_end as int,
                        )));
                        assert(state.regs() == mid_state.regs());
                    }
                    return Ok(StepResult::Row(rec));
                },
                Ok(Some(StepResult::IO)) => {
                    return Ok(StepResult::IO);
                },
                Ok(Some(StepResult::Done)) => {
                    return Ok(StepResult::Done);
                },
                Ok(None) => {},
            }
        }
    }
}

/// Equality of the observable program state: PC, registers, cursors, and
/// the recorded width of the first result row.
pub open spec fn state_eq(a: ProgramState, b: ProgramState) -> bool {
    &&& a.pc == b.pc
    &&& a.registers@ == b.registers@
    &&& a.cursors@ == b.cursors@
    &&& a.result_columns == b.result_columns
}

/// All cursor slots other than `cid` are as they were.
pub open spec fn cursors_except(pre: ProgramState, post: ProgramState, cid: int) -> bool {
    forall|c: int|
        c != cid ==> #[trigger] post.cursor_open(c) == pre.cursor_open(c) && (pre.cursor_open(c)
            ==> post.cursor_at(c) == pre.cursor_at(c))
}

/// Swap the cursor out of its slot so it can be operated on by value.
fn take_cursor(cursors: &mut Vec<Option<BTreeCursor>>, id: usize) -> (r: Option<BTreeCursor>)
    ensures
        old(cursors)@.len() <= id ==> r is None && final(cursors)@ == old(cursors)@,
        id < old(cursors)@.len() ==> r == old(cursors)@[id as int] && final(cursors)@ == old(
            cursors,
        )@.update(id as int, None::<BTreeCursor>),
{
    if id >= cursors.len() {
        return None;
    }
    let mut slot: Option<BTreeCursor> = None;
    core::mem::swap(&mut slot, &mut cursors[id]);
    slot
}

/// Putting `None` back where `None` was taken leaves the slots unchanged.
proof fn restore_none(pre: Seq<Option<BTreeCursor>>, post: Seq<Option<BTreeCursor>>, cid: int)
    requires
        post == pre || (0 <= cid < pre.len() && pre[cid] is None && post == pre.update(
            cid,
            None::<BTreeCursor>,
        )),
    ensures
        post =~= pre,
{
}

/// After a cursor operation that left every ready page in place, every
/// open cursor of an otherwise unchanged state is still valid.
proof fn lemma_state_cursors_extended(pre: ProgramState, post: ProgramState, p1: Pager, p2: Pager)
    requires
        post.cursors@ == pre.cursors@,
        p1.extended_by(p2),
        forall|c: int| pre.cursor_open(c) ==> (#[trigger] pre.cursor_at(c)).valid_at(p1),
    ensures
        forall|c: int| post.cursor_open(c) ==> (#[trigger] post.cursor_at(c)).valid_at(p2),
{
    assert forall|c: int| post.cursor_open(c) implies (#[trigger] post.cursor_at(c)).valid_at(
        p2,
    ) by {
        assert(pre.cursor_open(c));
        BTreeCursor::lemma_valid_at_extended(pre.cursor_at(c), p1, p2);
    }
}

/// After one cursor slot was rewritten with a cursor valid against the
/// grown pager, every open cursor is valid against it.
proof fn lemma_state_cursors_updated(
    pre: ProgramState,
    post: ProgramState,
    cid: int,
    p1: Pager,
    p2: Pager,
)
    requires
        0 <= cid < pre.cursors@.len(),
        post.cursors@ == pre.cursors@.update(cid, post.cursors@[cid]),
        post.cursors@[cid] is Some ==> post.cursors@[cid]->Some_0.valid_at(p2),
        p1.extended_by(p2),
        forall|c: int| pre.cursor_open(c) ==> (#[trigger] pre.cursor_at(c)).valid_at(p1),
    ensures
        forall|c: int| post.cursor_open(c) ==> (#[trigger] post.cursor_at(c)).valid_at(p2),
        cursors_except(pre, post, cid),
{
    assert forall|c: int| post.cursor_open(c) implies (#[trigger] post.cursor_at(c)).valid_at(
        p2,
    ) by {
        if c != cid {
            assert(pre.cursor_open(c));
            BTreeCursor::lemma_valid_at_extended(pre.cursor_at(c), p1, p2);
        }
    }
    assert forall|c: int| c != cid implies #[trigger] post.cursor_open(c) == pre.cursor_open(c) && (
    pre.cursor_open(c) ==> post.cursor_at(c) == pre.cursor_at(c)) by {}
}

} // verus!
