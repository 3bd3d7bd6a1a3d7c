//! The bytecode instruction schedule: every supported instruction is
//! priced as free, fixed, or linear in an operand; unsupported families
//! (exceptions, tail calls, references, atomics, vector operations) make
//! installation fail.

use vstd::prelude::*;

use crate::gas::{sat_add, sat_mul, Gas};
use crate::price_list::TABLE_ELEMENT_SIZE;

verus! {

/// The size in bytes of one linear-memory page.
pub const WASM_PAGE_SIZE: u32 = 65536;

/// The priced shapes a bytecode instruction can take, classified by how
/// the schedule charges it. Each variant stands for the group of concrete
/// instructions that share a price rule.
#[derive(Clone, Copy, Debug, PartialEq, Eq, Structural, Hash)]
pub enum WasmInstr {
    /// No-op, block, loop, unreachable, return, else, end, and stack drop:
    /// free.
    Free,
    /// An unconditional branch.
    BranchUnconditional,
    /// A conditional branch or an if.
    BranchConditional,
    /// A branch through a jump table.
    BranchIndirect,
    /// A direct call.
    Call,
    /// An indirect call through a table.
    CallIndirect,
    /// Constants, casts, widenings, truncations, reinterpretations,
    /// local and global access, and selects: the default instruction cost.
    Basic,
    /// Integer and floating-point arithmetic, comparison, bit manipulation
    /// and sign extension: the default math cost.
    Math,
    /// A load from linear memory or a table read.
    Load,
    /// A store to linear memory or a table write.
    Store,
    /// Table initialization or copy: linear, per table element.
    TableCopy,
    /// Table fill or grow: linear, per table element.
    TableFill,
    /// Growing linear memory: linear, per page.
    MemoryGrow,
    /// Filling linear memory: linear, per byte.
    MemoryFill,
    /// Initializing or copying linear memory: linear, per byte.
    MemoryCopy,
    /// Dropping a passive data or element segment.
    SegmentDrop,
    /// Asking for a memory or table size.
    SizeQuery,
    /// Exception handling, tail calls, reference types, atomics and vector
    /// instructions: installation must fail.
    Unsupported,
}

/// How one instruction is charged: a fixed amount of milligas, or a base
/// amount plus a strictly positive per-unit amount taken from the operand.
#[derive(Clone, Copy, Debug, PartialEq, Eq, Structural, Hash)]
pub enum InstrCost {
    Fixed(u64),
    Linear(u64, u32),
}

/// Why an instruction cannot be priced.
#[derive(Clone, Copy, Debug, PartialEq, Eq, Structural, Hash)]
pub enum WasmCostError {
    /// The instruction belongs to an unsupported family.
    UnsupportedOperation,
    /// A linear per-unit cost does not fit in thirty two bits.
    LinearGasExceedsU32,
}

/// The bytecode execution prices.
#[derive(Clone, Copy, Debug, PartialEq, Eq, Structural, Hash)]
pub struct WasmGasPrices {
    /// The default cost of an instruction.
    pub instruction_default: Gas,
    /// The default cost of a math instruction.
    pub math_default: Gas,
    /// An unconditional jump.
    pub jump_unconditional: Gas,
    /// A conditional jump.
    pub jump_conditional: Gas,
    /// An indirect jump.
    pub jump_indirect: Gas,
    /// A call, on top of the jump cost.
    pub call: Gas,
    /// One-time charge for any memory fill instruction.
    pub memory_fill_base_cost: Gas,
    /// Per byte filled in linear memory.
    pub memory_fill_per_byte_cost: Gas,
    /// One-time charge for any memory access.
    pub memory_access_cost: Gas,
    /// Per byte copied in linear memory.
    pub memory_copy_per_byte_cost: Gas,
    /// A call from bytecode into the host.
    pub host_call_cost: Gas,
}

/// The cost rule for a linear instruction: the base in milligas plus a
/// per-unit amount of `linear * unit_multiplier` milligas. The per-unit
/// amount must fit in thirty two bits; when it is zero the instruction is
/// in fact fixed.
pub open spec fn spec_linear_cost(base: Gas, linear: Gas, unit_multiplier: u32) -> Result<
    InstrCost,
    WasmCostError,
> {
    let per_unit = sat_mul(linear.mg(), unit_multiplier as u64);
    if per_unit > u32::MAX {
        Err(WasmCostError::LinearGasExceedsU32)
    } else if per_unit == 0 {
        Ok(InstrCost::Fixed(base.mg()))
    } else {
        Ok(InstrCost::Linear(base.mg(), per_unit as u32))
    }
}

fn linear_cost(base: Gas, linear: Gas, unit_multiplier: u32) -> (r: Result<
    InstrCost,
    WasmCostError,
>)
    ensures
        r == spec_linear_cost(base, linear, unit_multiplier),
{
    let gas_per_unit = linear.saturating_mul(unit_multiplier as u64);
    let expansion_cost = gas_per_unit.as_milligas();
    if expansion_cost > u32::MAX as u64 {
        Err(WasmCostError::LinearGasExceedsU32)
    } else if expansion_cost == 0 {
        Ok(InstrCost::Fixed(base.as_milligas()))
    } else {
        Ok(InstrCost::Linear(base.as_milligas(), expansion_cost as u32))
    }
}

impl WasmGasPrices {
    /// What the schedule answers for each instruction group.
    pub open spec fn spec_instruction_cost(self, instruction: WasmInstr) -> Result<
        InstrCost,
        WasmCostError,
    > {
        match instruction {
            WasmInstr::Free => Ok(InstrCost::Fixed(0)),
            WasmInstr::BranchUnconditional => Ok(InstrCost::Fixed(self.jump_unconditional.mg())),
            WasmInstr::BranchConditional => Ok(InstrCost::Fixed(self.jump_conditional.mg())),
            WasmInstr::BranchIndirect => Ok(
                InstrCost::Fixed(sat_add(self.jump_indirect.mg(), self.memory_access_cost.mg())),
            ),
            WasmInstr::Call => Ok(
                InstrCost::Fixed(sat_add(self.jump_unconditional.mg(), self.call.mg())),
            ),
            WasmInstr::CallIndirect => Ok(
                InstrCost::Fixed(
                    sat_add(
                        sat_add(self.jump_indirect.mg(), self.memory_access_cost.mg()),
                        self.call.mg(),
                    ),
                ),
            ),
            WasmInstr::Basic => Ok(InstrCost::Fixed(self.instruction_default.mg())),
            WasmInstr::Math => Ok(InstrCost::Fixed(self.math_default.mg())),
            WasmInstr::Load => Ok(
                InstrCost::Fixed(
                    sat_add(self.instruction_default.mg(), self.memory_access_cost.mg()),
                ),
            ),
            WasmInstr::Store => Ok(
                InstrCost::Fixed(
                    sat_add(self.instruction_default.mg(), self.memory_fill_base_cost.mg()),
                ),
            ),
            WasmInstr::TableCopy => spec_linear_cost(
                Gas::from_mg_spec(
                    sat_add(self.instruction_default.mg(), self.memory_access_cost.mg()),
                ),
                self.memory_copy_per_byte_cost,
                TABLE_ELEMENT_SIZE,
            ),
            WasmInstr::TableFill => spec_linear_cost(
                Gas::from_mg_spec(
                    sat_add(self.instruction_default.mg(), self.memory_fill_base_cost.mg()),
                ),
                self.memory_fill_per_byte_cost,
                TABLE_ELEMENT_SIZE,
            ),
            WasmInstr::MemoryGrow => spec_linear_cost(
                Gas::from_mg_spec(
                    sat_add(self.instruction_default.mg(), self.memory_fill_base_cost.mg()),
                ),
                self.memory_fill_per_byte_cost,
                WASM_PAGE_SIZE,
            ),
            WasmInstr::MemoryFill => spec_linear_cost(
                Gas::from_mg_spec(
                    sat_add(self.instruction_default.mg(), self.memory_fill_base_cost.mg()),
                ),
                self.memory_fill_per_byte_cost,
                1,
            ),
            WasmInstr::MemoryCopy => spec_linear_cost(
                Gas::from_mg_spec(
                    sat_add(self.instruction_default.mg(), self.memory_access_cost.mg()),
                ),
                self.memory_copy_per_byte_cost,
                1,
            ),
            WasmInstr::SegmentDrop => Ok(InstrCost::Fixed(self.instruction_default.mg())),
            WasmInstr::SizeQuery => Ok(InstrCost::Fixed(self.instruction_default.mg())),
            WasmInstr::Unsupported => Err(WasmCostError::UnsupportedOperation),
        }
    }

    /// The cost of one instruction group, exactly as the specification
    /// table says.
    pub fn instruction_cost(&self, instruction: WasmInstr) -> (r: Result<InstrCost, WasmCostError>)
        ensures
            r == self.spec_instruction_cost(instruction),
    {
        match instruction {
            WasmInstr::Free => Ok(InstrCost::Fixed(0)),
            WasmInstr::BranchUnconditional => Ok(
                InstrCost::Fixed(self.jump_unconditional.as_milligas()),
            ),
            WasmInstr::BranchConditional => Ok(
                InstrCost::Fixed(self.jump_conditional.as_milligas()),
            ),
            WasmInstr::BranchIndirect => Ok(
                InstrCost::Fixed(
                    self.jump_indirect.saturating_add(self.memory_access_cost).as_milligas(),
                ),
            ),
            WasmInstr::Call => Ok(
                InstrCost::Fixed(self.jump_unconditional.saturating_add(self.call).as_milligas()),
            ),
            WasmInstr::CallIndirect => Ok(
                InstrCost::Fixed(
                    self.jump_indirect.saturating_add(self.memory_access_cost).saturating_add(
                        self.call,
                    ).as_milligas(),
                ),
            ),
            WasmInstr::Basic => Ok(InstrCost::Fixed(self.instruction_default.as_milligas())),
            WasmInstr::Math => Ok(InstrCost::Fixed(self.math_default.as_milligas())),
            WasmInstr::Load => Ok(
                InstrCost::Fixed(
                    self.instruction_default.saturating_add(self.memory_access_cost).as_milligas(),
                ),
            ),
            WasmInstr::Store => Ok(
                InstrCost::Fixed(
                    self.instruction_default.saturating_add(
                        self.memory_fill_base_cost,
                    ).as_milligas(),
                ),
            ),
            WasmInstr::TableCopy => linear_cost(
                self.instruction_default.saturating_add(self.memory_access_cost),
                self.memory_copy_per_byte_cost,
                TABLE_ELEMENT_SIZE,
            ),
            WasmInstr::TableFill => linear_cost(
                self.instruction_default.saturating_add(self.memory_fill_base_cost),
                self.memory_fill_per_byte_cost,
                TABLE_ELEMENT_SIZE,
            ),
            WasmInstr::MemoryGrow => linear_cost(
                self.instruction_default.saturating_add(self.memory_fill_base_cost),
                self.memory_fill_per_byte_cost,
                WASM_PAGE_SIZE,
            ),
            WasmInstr::MemoryFill => linear_cost(
                self.instruction_default.saturating_add(self.memory_fill_base_cost),
                self.memory_fill_per_byte_cost,
                1,
            ),
            WasmInstr::MemoryCopy => linear_cost(
                self.instruction_default.saturating_add(self.memory_access_cost),
                self.memory_copy_per_byte_cost,
                1,
            ),
            WasmInstr::SegmentDrop => Ok(InstrCost::Fixed(self.instruction_default.as_milligas())),
            WasmInstr::SizeQuery => Ok(InstrCost::Fixed(self.instruction_default.as_milligas())),
            WasmInstr::Unsupported => Err(WasmCostError::UnsupportedOperation),
        }
    }

    /// The charge per call of the metering function itself.
    pub fn gas_charge_cost(&self) -> (r: u64)
        ensures
            r == 0,
    {
        0
    }

    /// The charge for computing a linear cost at runtime.
    pub fn linear_calc_cost(&self) -> (r: u64)
        ensures
            r == 0,
    {
        0
    }

    /// The gas required to initialize `min_memory_bytes` of linear memory.
    pub fn init_memory_gas(&self, min_memory_bytes: usize) -> (r: Gas)
        ensures
            r.mg() == sat_add(
                self.memory_fill_base_cost.mg(),
                sat_mul(self.memory_fill_per_byte_cost.mg(), min_memory_bytes as u64),
            ),
    {
        self.memory_fill_base_cost.saturating_add(
            self.memory_fill_per_byte_cost.saturating_mul(min_memory_bytes as u64),
        )
    }

    /// The gas required to grow linear memory by `grow_memory_bytes`.
    pub fn grow_memory_gas(&self, grow_memory_bytes: usize) -> (r: Gas)
        ensures
            r.mg() == sat_add(
                self.memory_fill_base_cost.mg(),
                sat_mul(self.memory_fill_per_byte_cost.mg(), grow_memory_bytes as u64),
            ),
    {
        self.memory_fill_base_cost.saturating_add(
            self.memory_fill_per_byte_cost.saturating_mul(grow_memory_bytes as u64),
        )
    }

    /// The gas required to initialize `min_table_elements` table slots,
    /// at eight bytes per element.
    pub fn init_table_gas(&self, min_table_elements: u64) -> (r: Gas)
        ensures
            r.mg() == sat_add(
                self.memory_fill_base_cost.mg(),
                sat_mul(
                    sat_mul(self.memory_fill_per_byte_cost.mg(), min_table_elements),
                    TABLE_ELEMENT_SIZE as u64,
                ),
            ),
    {
        self.memory_fill_base_cost.saturating_add(
            self.memory_fill_per_byte_cost.saturating_mul(min_table_elements).saturating_mul(
                TABLE_ELEMENT_SIZE as u64,
            ),
        )
    }
}

} // verus!
