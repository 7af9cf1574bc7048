//! The values of expressions.
//!
//! A value is a sequence of bytes, the least significant byte first. What
//! an expression is worth depends on the values of its variables and on
//! the meaning of its operations. This module fixes the meaning of the
//! operations that the passes of this crate rely on: concatenation and
//! extraction, the extensions of integers, the bitwise operations and the
//! comparisons of integers. The meaning of every other operation is left
//! open: it is a parameter of the evaluation. What the module proves holds
//! whatever these operations compute.

use crate::bitvector::{one_pattern, unsigned_value, zero_pattern};
use crate::def::DefView;
use crate::expression::{BinOpType, CastOpType, ExpressionView, UnOpType};
use crate::registers::{consistent, is_sub_register, RegisterPropertiesView};
use crate::simplification::lemma_simplified_keeps_bytesize;
use crate::sub_registers::{
    normalized_output, normalized_value, pieced_together, register_variable,
    zero_extension_follows,
};
use crate::variable::VariableView;
use vstd::prelude::*;

verus! {

/// What the evaluation of an expression depends on.
pub struct Interpretation {
    /// The value of each variable.
    pub variables: spec_fn(VariableView) -> Seq<u8>,
    /// The value of each unknown value, by its description and size.
    pub unknowns: spec_fn(Seq<char>, nat) -> Seq<u8>,
    /// The result of each binary operation whose meaning is left open.
    pub binary: spec_fn(BinOpType, Seq<u8>, Seq<u8>) -> Seq<u8>,
    /// The result of each unary operation.
    pub unary: spec_fn(UnOpType, Seq<u8>) -> Seq<u8>,
    /// The result of each cast whose meaning is left open.
    pub cast: spec_fn(CastOpType, nat, Seq<u8>) -> Seq<u8>,
}

impl Interpretation {
    /// Whether each variable and each unknown value has a value of its
    /// size, and each operation whose meaning is left open gives a result
    /// of the size that [`ExpressionView::bytesize`] states.
    pub open spec fn respects_sizes(self) -> bool {
        &&& forall|variable: VariableView|
            (#[trigger] (self.variables)(variable)).len() == variable.size
        &&& forall|description: Seq<char>, size: nat|
            (#[trigger] (self.unknowns)(description, size)).len() == size
        &&& forall|op: BinOpType, lhs: Seq<u8>, rhs: Seq<u8>|
            (#[trigger] (self.binary)(op, lhs, rhs)).len() == if op.yields_flag() {
                1
            } else {
                lhs.len()
            }
        &&& forall|op: UnOpType, arg: Seq<u8>|
            (#[trigger] (self.unary)(op, arg)).len() == if op == UnOpType::FloatNaN {
                1
            } else {
                arg.len()
            }
        &&& forall|op: CastOpType, size: nat, arg: Seq<u8>|
            (#[trigger] (self.cast)(op, size, arg)).len() == size
    }
}

/// The value of a truth value: one byte that holds 1 or 0.
pub open spec fn flag(truth: bool) -> Seq<u8> {
    if truth {
        one_pattern(1)
    } else {
        zero_pattern(1)
    }
}

/// The bitwise conjunction of two values, as wide as the left one.
pub open spec fn and_of(lhs: Seq<u8>, rhs: Seq<u8>) -> Seq<u8> {
    Seq::new(lhs.len(), |i: int| lhs[i] & rhs[i])
}

/// The bitwise disjunction of two values, as wide as the left one.
pub open spec fn or_of(lhs: Seq<u8>, rhs: Seq<u8>) -> Seq<u8> {
    Seq::new(lhs.len(), |i: int| lhs[i] | rhs[i])
}

/// The bitwise exclusive disjunction of two values, as wide as the left
/// one.
pub open spec fn xor_of(lhs: Seq<u8>, rhs: Seq<u8>) -> Seq<u8> {
    Seq::new(lhs.len(), |i: int| lhs[i] ^ rhs[i])
}

/// The `size` bytes of `value` from byte `low_byte` on. A byte beyond the
/// end of `value` counts as zero.
pub open spec fn extracted(value: Seq<u8>, low_byte: nat, size: nat) -> Seq<u8> {
    Seq::new(
        size,
        |i: int|
            if low_byte + i < value.len() {
                value[low_byte + i]
            } else {
                0u8
            },
    )
}

/// The byte that continues a value upwards: zeros, or ones where the value
/// is a negative signed number.
pub open spec fn extension_byte(value: Seq<u8>, signed: bool) -> u8 {
    if signed && value.len() > 0 && value.last() >= 0x80 {
        0xffu8
    } else {
        0u8
    }
}

/// The lowest `size` bytes of `value`, continued upwards as
/// [`extension_byte`] says.
pub open spec fn extended(value: Seq<u8>, size: nat, signed: bool) -> Seq<u8> {
    Seq::new(
        size,
        |i: int|
            if i < value.len() {
                value[i]
            } else {
                extension_byte(value, signed)
            },
    )
}

/// The number that a value stands for as a signed number: the number that
/// its extension by one byte stands for, less the weight of that byte where
/// the value is negative.
pub open spec fn signed_value(value: Seq<u8>) -> int {
    if extension_byte(value, true) == 0 {
        unsigned_value(value) as int
    } else {
        unsigned_value(value) - unsigned_value(zero_pattern(value.len()).push(1u8))
    }
}

/// The result of a binary operation on two values.
pub open spec fn binary_value(
    interpretation: Interpretation,
    op: BinOpType,
    lhs: Seq<u8>,
    rhs: Seq<u8>,
) -> Seq<u8> {
    match op {
        BinOpType::Piece => rhs + lhs,
        BinOpType::IntAnd | BinOpType::BoolAnd => and_of(lhs, rhs),
        BinOpType::IntOr | BinOpType::BoolOr => or_of(lhs, rhs),
        BinOpType::IntXOr | BinOpType::BoolXOr => xor_of(lhs, rhs),
        BinOpType::IntEqual => flag(lhs == rhs),
        BinOpType::IntNotEqual => flag(lhs != rhs),
        BinOpType::IntLess => flag(unsigned_value(lhs) < unsigned_value(rhs)),
        BinOpType::IntLessEqual => flag(unsigned_value(lhs) <= unsigned_value(rhs)),
        BinOpType::IntSLess => flag(signed_value(lhs) < signed_value(rhs)),
        BinOpType::IntSLessEqual => flag(signed_value(lhs) <= signed_value(rhs)),
        _ => (interpretation.binary)(op, lhs, rhs),
    }
}

/// The result of a cast of a value to `size` bytes.
pub open spec fn cast_value(
    interpretation: Interpretation,
    op: CastOpType,
    size: nat,
    arg: Seq<u8>,
) -> Seq<u8> {
    match op {
        CastOpType::IntZExt => extended(arg, size, false),
        CastOpType::IntSExt => extended(arg, size, true),
        _ => (interpretation.cast)(op, size, arg),
    }
}

impl ExpressionView {
    /// The value of the expression.
    pub open spec fn value(self, interpretation: Interpretation) -> Seq<u8>
        decreases self,
    {
        match self {
            ExpressionView::Var(variable) => (interpretation.variables)(variable),
            ExpressionView::Const(bits) => bits,
            ExpressionView::Unknown { description, size } => (interpretation.unknowns)(
                description,
                size,
            ),
            ExpressionView::BinOp { op, lhs, rhs } => binary_value(
                interpretation,
                op,
                lhs.value(interpretation),
                rhs.value(interpretation),
            ),
            ExpressionView::UnOp { op, arg } => (interpretation.unary)(
                op,
                arg.value(interpretation),
            ),
            ExpressionView::Cast { op, size, arg } => cast_value(
                interpretation,
                op,
                size,
                arg.value(interpretation),
            ),
            ExpressionView::Subpiece { low_byte, size, arg } => extracted(
                arg.value(interpretation),
                low_byte,
                size,
            ),
        }
    }
}

/// The value of a well-typed expression has the size of the expression.
pub proof fn lemma_value_has_bytesize(expression: ExpressionView, interpretation: Interpretation)
    requires
        expression.well_typed(),
        interpretation.respects_sizes(),
    ensures
        expression.value(interpretation).len() == expression.bytesize(),
    decreases expression,
{
    match expression {
        ExpressionView::Var(_) => {},
        ExpressionView::Const(_) => {},
        ExpressionView::Unknown { .. } => {},
        ExpressionView::BinOp { lhs, rhs, .. } => {
            lemma_value_has_bytesize(*lhs, interpretation);
            lemma_value_has_bytesize(*rhs, interpretation);
        },
        ExpressionView::UnOp { arg, .. } => {
            lemma_value_has_bytesize(*arg, interpretation);
        },
        ExpressionView::Cast { arg, .. } => {
            lemma_value_has_bytesize(*arg, interpretation);
        },
        ExpressionView::Subpiece { arg, .. } => {
            lemma_value_has_bytesize(*arg, interpretation);
        },
    }
}

/// The operations that the simplifier replaces give, on two copies of one
/// value, what the simplifier puts in their place.
pub proof fn lemma_operations_on_identical_values(value: Seq<u8>)
    ensures
        and_of(value, value) == value,
        or_of(value, value) == value,
        xor_of(value, value) == zero_pattern(value.len()),
        extracted(value, 0, value.len()) == value,
        extended(value, value.len(), false) == value,
        extended(value, value.len(), true) == value,
{
    assert forall|i: int| 0 <= i < value.len() implies (#[trigger] value[i] & value[i]) == value[i]
        && (value[i] | value[i]) == value[i] && (value[i] ^ value[i]) == 0u8 by {
        let byte: u8 = value[i];
        assert(byte & byte == byte) by (bit_vector);
        assert(byte | byte == byte) by (bit_vector);
        assert(byte ^ byte == 0u8) by (bit_vector);
    }
    assert(and_of(value, value) =~= value);
    assert(or_of(value, value) =~= value);
    assert(xor_of(value, value) =~= zero_pattern(value.len()));
    assert(extracted(value, 0, value.len()) =~= value);
    assert(extended(value, value.len(), false) =~= value);
    assert(extended(value, value.len(), true) =~= value);
}

/// Substituting trivial operations does not change the value of a
/// well-typed expression, whatever the values of its variables are and
/// whatever the operations compute whose meaning is left open.
pub proof fn lemma_simplified_keeps_value(
    expression: ExpressionView,
    interpretation: Interpretation,
)
    requires
        expression.well_typed(),
        interpretation.respects_sizes(),
    ensures
        expression.simplified().value(interpretation) == expression.value(interpretation),
    decreases expression,
{
    match expression {
        ExpressionView::Var(_) => {},
        ExpressionView::Const(_) => {},
        ExpressionView::Unknown { .. } => {},
        ExpressionView::Subpiece { arg, .. } => {
            lemma_simplified_keeps_value(*arg, interpretation);
            lemma_simplified_keeps_bytesize(*arg);
            lemma_value_has_bytesize(*arg, interpretation);
            lemma_operations_on_identical_values(arg.value(interpretation));
        },
        ExpressionView::Cast { arg, .. } => {
            lemma_simplified_keeps_value(*arg, interpretation);
            lemma_simplified_keeps_bytesize(*arg);
            lemma_value_has_bytesize(*arg, interpretation);
            lemma_operations_on_identical_values(arg.value(interpretation));
        },
        ExpressionView::UnOp { arg, .. } => {
            lemma_simplified_keeps_value(*arg, interpretation);
        },
        ExpressionView::BinOp { lhs, rhs, .. } => {
            lemma_simplified_keeps_value(*lhs, interpretation);
            lemma_simplified_keeps_value(*rhs, interpretation);
            lemma_simplified_keeps_bytesize(*lhs);
            lemma_value_has_bytesize(*lhs, interpretation);
            lemma_operations_on_identical_values(lhs.value(interpretation));
        },
    }
}

impl Interpretation {
    /// Whether the values of the variables agree with the registers of
    /// `catalog`: the value of each sub-register is the part of the value
    /// of its base register where the sub-register lies. This is asked of
    /// the variables that name a sub-register with the size of that
    /// sub-register.
    pub open spec fn agrees_with(self, catalog: Map<Seq<char>, RegisterPropertiesView>) -> bool {
        forall|variable: VariableView|
            is_sub_register(catalog, variable.name) && variable.size
                == catalog[variable.name].size ==> #[trigger] (self.variables)(variable)
                == extracted(
                (self.variables)(
                    register_variable(
                        catalog[variable.name].base_register,
                        catalog[catalog[variable.name].base_register].size,
                    ),
                ),
                catalog[variable.name].lsb,
                catalog[variable.name].size,
            )
    }
}

/// The interpretation in which every variable, every unknown value and
/// every operation whose meaning is left open gives zeros of the due size.
pub open spec fn all_zero() -> Interpretation {
    Interpretation {
        variables: |variable: VariableView| zero_pattern(variable.size),
        unknowns: |description: Seq<char>, size: nat| zero_pattern(size),
        binary: |op: BinOpType, lhs: Seq<u8>, rhs: Seq<u8>|
            if op.yields_flag() {
                zero_pattern(1)
            } else {
                zero_pattern(lhs.len())
            },
        unary: |op: UnOpType, arg: Seq<u8>|
            if op == UnOpType::FloatNaN {
                zero_pattern(1)
            } else {
                zero_pattern(arg.len())
            },
        cast: |op: CastOpType, size: nat, arg: Seq<u8>| zero_pattern(size),
    }
}

/// Some interpretation respects the sizes and agrees with the registers,
/// whatever the catalog: what is proved of such interpretations is proved
/// of something.
pub proof fn lemma_all_zero_is_admitted(catalog: Map<Seq<char>, RegisterPropertiesView>)
    ensures
        all_zero().respects_sizes(),
        all_zero().agrees_with(catalog),
{
    assert forall|variable: VariableView|
        is_sub_register(catalog, variable.name) && variable.size
            == catalog[variable.name].size implies #[trigger] (all_zero().variables)(variable)
        == extracted(
        (all_zero().variables)(
            register_variable(
                catalog[variable.name].base_register,
                catalog[catalog[variable.name].base_register].size,
            ),
        ),
        catalog[variable.name].lsb,
        catalog[variable.name].size,
    ) by {
        assert(zero_pattern(variable.size) =~= extracted(
            zero_pattern(catalog[catalog[variable.name].base_register].size),
            catalog[variable.name].lsb,
            catalog[variable.name].size,
        ));
    }
}

/// The value `whole` with the bytes from byte `low_byte` on replaced by
/// the bytes of `part`.
pub open spec fn with_bytes_replaced(whole: Seq<u8>, low_byte: nat, part: Seq<u8>) -> Seq<u8> {
    Seq::new(
        whole.len(),
        |i: int|
            if low_byte <= i < low_byte + part.len() {
                part[i - low_byte]
            } else {
                whole[i]
            },
    )
}

/// Replacing the sub-registers that an expression reads does not change
/// the value of the expression, if the values of the sub-registers are the
/// parts of the values of their base registers and the variables of the
/// expression have the sizes of their registers.
pub proof fn lemma_with_base_registers_keeps_value(
    expression: ExpressionView,
    catalog: Map<Seq<char>, RegisterPropertiesView>,
    interpretation: Interpretation,
)
    requires
        interpretation.agrees_with(catalog),
        expression.sized_as_in(catalog),
    ensures
        expression.with_base_registers(catalog).value(interpretation) == expression.value(
            interpretation,
        ),
    decreases expression,
{
    match expression {
        ExpressionView::Var(variable) => {
            if is_sub_register(catalog, variable.name) {
                reveal_with_fuel(ExpressionView::value, 2);
                assert((interpretation.variables)(variable) == extracted(
                    (interpretation.variables)(
                        register_variable(
                            catalog[variable.name].base_register,
                            catalog[catalog[variable.name].base_register].size,
                        ),
                    ),
                    catalog[variable.name].lsb,
                    catalog[variable.name].size,
                ));
            }
        },
        ExpressionView::Const(_) => {},
        ExpressionView::Unknown { .. } => {},
        ExpressionView::BinOp { lhs, rhs, .. } => {
            lemma_with_base_registers_keeps_value(*lhs, catalog, interpretation);
            lemma_with_base_registers_keeps_value(*rhs, catalog, interpretation);
        },
        ExpressionView::UnOp { arg, .. } => {
            lemma_with_base_registers_keeps_value(*arg, catalog, interpretation);
        },
        ExpressionView::Cast { arg, .. } => {
            lemma_with_base_registers_keeps_value(*arg, catalog, interpretation);
        },
        ExpressionView::Subpiece { arg, .. } => {
            lemma_with_base_registers_keeps_value(*arg, catalog, interpretation);
        },
    }
}

/// The value that is written to a base register in place of a write of
/// `value` to a sub-register is the value of the base register with the
/// bytes of the sub-register replaced by `value` and all other bytes
/// untouched.
pub proof fn lemma_pieced_together_replaces_bytes(
    value: ExpressionView,
    base: RegisterPropertiesView,
    sub: RegisterPropertiesView,
    interpretation: Interpretation,
)
    requires
        sub.lsb + sub.size <= base.size,
        value.value(interpretation).len() == sub.size,
        (interpretation.variables)(register_variable(base.register, base.size)).len()
            == base.size,
    ensures
        pieced_together(value, base, sub).value(interpretation) == with_bytes_replaced(
            (interpretation.variables)(register_variable(base.register, base.size)),
            sub.lsb,
            value.value(interpretation),
        ),
{
    reveal_with_fuel(ExpressionView::value, 4);
    let whole = (interpretation.variables)(register_variable(base.register, base.size));
    assert(pieced_together(value, base, sub).value(interpretation) =~= with_bytes_replaced(
        whole,
        sub.lsb,
        value.value(interpretation),
    ));
}

/// The variable that stands for the base register of the sub-register
/// `name` of `catalog`.
pub open spec fn base_variable_of(
    catalog: Map<Seq<char>, RegisterPropertiesView>,
    name: Seq<char>,
) -> VariableView {
    register_variable(
        catalog[name].base_register,
        catalog[catalog[name].base_register].size,
    )
}

/// A normalized write to a sub-register that no zero extension follows
/// gives the base register its value with the bytes of the sub-register
/// replaced by the value that is written, whatever sub-registers that value
/// reads. The variable that is written is the variable that stands for the
/// base register, unless the output was marked as a temporary value.
pub proof fn lemma_normalized_write_replaces_bytes(
    value: ExpressionView,
    output: VariableView,
    catalog: Map<Seq<char>, RegisterPropertiesView>,
    peeked: Option<DefView>,
    interpretation: Interpretation,
)
    requires
        consistent(catalog),
        is_sub_register(catalog, output.name),
        !zero_extension_follows(Some(output), catalog, peeked),
        interpretation.agrees_with(catalog),
        interpretation.respects_sizes(),
        value.sized_as_in(catalog),
        value.value(interpretation).len() == catalog[output.name].size,
    ensures
        normalized_value(value, Some(output), catalog, peeked).value(interpretation)
            == with_bytes_replaced(
            (interpretation.variables)(base_variable_of(catalog, output.name)),
            catalog[output.name].lsb,
            value.value(interpretation),
        ),
        !output.is_temp ==> normalized_output(output, catalog) == base_variable_of(
            catalog,
            output.name,
        ),
{
    let sub = catalog[output.name];
    let base = catalog[sub.base_register];
    assert(catalog.contains_key(output.name));
    assert(catalog.contains_key(sub.base_register));
    lemma_with_base_registers_keeps_value(value, catalog, interpretation);
    lemma_pieced_together_replaces_bytes(
        value.with_base_registers(catalog),
        base,
        sub,
        interpretation,
    );
}

/// A normalized write to a sub-register that a zero extension follows
/// gives the base register the written value, extended by zeros.
///
/// For a sub-register that starts at byte 0 this is what the following
/// term computes in any case, if it extends that sub-register: the zero
/// extension of the sub-register is the same whether it is read from this
/// value or from the value with the untouched bytes. Nothing of the kind
/// holds of a sub-register that starts at another byte.
pub proof fn lemma_normalized_write_before_zero_extension(
    value: ExpressionView,
    output: VariableView,
    catalog: Map<Seq<char>, RegisterPropertiesView>,
    peeked: Option<DefView>,
    interpretation: Interpretation,
)
    requires
        consistent(catalog),
        zero_extension_follows(Some(output), catalog, peeked),
        interpretation.agrees_with(catalog),
        interpretation.respects_sizes(),
        value.sized_as_in(catalog),
        value.value(interpretation).len() == catalog[output.name].size,
    ensures
        ({
            let written = value.value(interpretation);
            let old_value = (interpretation.variables)(base_variable_of(catalog, output.name));
            let new_value = normalized_value(value, Some(output), catalog, peeked).value(
                interpretation,
            );
            &&& new_value == extended(written, old_value.len(), false)
            &&& catalog[output.name].lsb == 0 ==> extended(
                extracted(new_value, 0, written.len()),
                old_value.len(),
                false,
            ) == extended(
                extracted(with_bytes_replaced(old_value, 0, written), 0, written.len()),
                old_value.len(),
                false,
            )
        }),
{
    let sub = catalog[output.name];
    assert(catalog.contains_key(output.name));
    assert(catalog.contains_key(sub.base_register));
    lemma_with_base_registers_keeps_value(value, catalog, interpretation);
    let written = value.value(interpretation);
    let old_value = (interpretation.variables)(base_variable_of(catalog, output.name));
    let new_value = normalized_value(value, Some(output), catalog, peeked).value(interpretation);
    assert(new_value == extended(written, old_value.len(), false));
    if sub.lsb == 0 {
        assert(extracted(new_value, 0, written.len()) =~= extracted(
            with_bytes_replaced(old_value, 0, written),
            0,
            written.len(),
        ));
    }
}

} // verus!
