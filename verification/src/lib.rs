//! The expression layer of an intermediate representation for binary analysis.
//!
//! An [`Expression`] is a side-effect-free computation over registers and
//! constants. Every expression has a size in bytes that depends on its
//! structure alone. The crate offers a peephole simplifier for expressions and
//! the pass that replaces accesses to sub-registers by accesses to their base
//! registers, so that each physical register is named by one variable only.
//!
//! The crate is verified with Verus. Each type has a view, a mathematical
//! value over sequences and unbounded numbers, and the contracts of the
//! functions are stated over these views:
//!
//! - [`bytesize`], [`bitvector`], [`variable`] and [`expression`] hold the
//!   data: sizes, constants, variables, and expressions with their size
//!   ([`ExpressionView::bytesize`]) and their typing rules
//!   ([`ExpressionView::well_typed`]).
//! - [`simplification`] substitutes trivial operations
//!   ([`Expression::substitute_trivial_operations`]). The result of one pass
//!   is [`ExpressionView::simplified`]; the module proves that a pass keeps
//!   the size of a well-typed expression, and each rule of the pass on its
//!   own.
//! - [`registers`] holds the registers of an architecture in a
//!   [`RegisterCatalog`], which only exists for a consistent list of
//!   registers.
//! - [`sub_registers`] replaces sub-registers by base registers
//!   ([`Expression::process_sub_registers_if_necessary`],
//!   [`replace_sub_registers_in_block`]) and proves that no sub-register is
//!   named afterwards.
//! - [`semantics`] says what the value of an expression is. It proves that
//!   the simplifier keeps the value of an expression, that a replaced read
//!   of a sub-register reads the same bytes, and that a replaced write
//!   changes the bytes of the sub-register only.
//! - [`binary`] finds the address at which a binary is loaded
//!   ([`ObjectFile::base_address`]) from what a parser found in its bytes.
//! - [`partial_run`] chooses the modules of a run by their names
//!   ([`find_unknown_module`], [`filter_modules_for_partial_run`]).

pub mod binary;
pub mod bitvector;
pub mod bytesize;
pub mod def;
pub mod expression;
pub mod partial_run;
pub mod registers;
pub mod semantics;
pub mod simplification;
pub mod sub_registers;
pub mod variable;

pub use binary::{address_base_offset, BaseAddressError, ObjectFile, ProgramHeader};
pub use bitvector::Bitvector;
pub use bytesize::ByteSize;
pub use def::{Def, DefView};
pub use expression::{BinOpType, CastOpType, Expression, ExpressionView, UnOpType};
pub use partial_run::{
    depends_on_pointer_inference, filter_modules_for_partial_run, find_unknown_module,
    keep_default_modules, split_at_commas,
};
pub use registers::{
    CatalogError, RegisterCatalog, RegisterDefect, RegisterProperties, RegisterPropertiesView,
};
pub use sub_registers::replace_sub_registers_in_block;
pub use variable::{Variable, VariableView};
