//! Replacement of sub-registers by their base registers.
//!
//! Machine code may read and write a part of a register under a name of
//! its own. The pass of this module rewrites an assignment so that it names
//! base registers only. A read of a sub-register becomes an extraction from
//! the base register. A write to a sub-register becomes a write to the base
//! register of the new value together with the bytes that the write leaves
//! untouched.

use crate::bytesize::ByteSize;
use crate::def::{Def, DefView};
use crate::expression::{BinOpType, CastOpType, Expression, ExpressionView};
use crate::registers::{
    consistent, is_sub_register, RegisterCatalog, RegisterProperties, RegisterPropertiesView,
};
use crate::variable::{Variable, VariableView};
use vstd::prelude::*;

verus! {

/// The variable that stands for a register of full width.
pub open spec fn register_variable(name: Seq<char>, size: nat) -> VariableView {
    VariableView { name, size, is_temp: false }
}

/// The extraction of `size` bytes from byte `low_byte` of the base register
/// `base` of `catalog`.
pub open spec fn subpiece_of_base(
    catalog: Map<Seq<char>, RegisterPropertiesView>,
    base: Seq<char>,
    low_byte: nat,
    size: nat,
) -> ExpressionView {
    ExpressionView::subpiece(
        low_byte,
        size,
        ExpressionView::Var(register_variable(base, catalog[base].size)),
    )
}

/// The value of the base register after `value` was written to the
/// sub-register `sub` of it: the bytes of the base register above the
/// sub-register, then `value`, then the bytes below the sub-register. The
/// part below is left out where the sub-register starts at byte 0.
pub open spec fn pieced_together(
    value: ExpressionView,
    base: RegisterPropertiesView,
    sub: RegisterPropertiesView,
) -> ExpressionView {
    let whole = ExpressionView::Var(register_variable(base.register, base.size));
    let end: nat = sub.lsb + sub.size;
    let above = ExpressionView::subpiece(end, (base.size - end) as nat, whole);
    if sub.lsb > 0 {
        ExpressionView::piece(
            ExpressionView::piece(above, value),
            ExpressionView::subpiece(0, sub.lsb, whole),
        )
    } else {
        ExpressionView::piece(above, value)
    }
}

impl ExpressionView {
    /// Whether the expression extends the value of a variable by zeros.
    pub open spec fn is_zero_extension(self) -> bool {
        self matches ExpressionView::Cast { op, arg, .. } && op == CastOpType::IntZExt && *arg
            is Var
    }

    /// The expression in which each variable that names a sub-register is
    /// replaced by the extraction of the sub-register from its base
    /// register.
    pub open spec fn with_base_registers(
        self,
        catalog: Map<Seq<char>, RegisterPropertiesView>,
    ) -> ExpressionView
        decreases self,
    {
        match self {
            ExpressionView::Var(variable) => {
                if is_sub_register(catalog, variable.name) {
                    let register = catalog[variable.name];
                    subpiece_of_base(catalog, register.base_register, register.lsb, register.size)
                } else {
                    self
                }
            },
            ExpressionView::Const(_) => self,
            ExpressionView::Unknown { .. } => self,
            ExpressionView::BinOp { op, lhs, rhs } => ExpressionView::binary(
                op,
                lhs.with_base_registers(catalog),
                rhs.with_base_registers(catalog),
            ),
            ExpressionView::UnOp { op, arg } => ExpressionView::unary(
                op,
                arg.with_base_registers(catalog),
            ),
            ExpressionView::Cast { op, size, arg } => ExpressionView::cast(
                op,
                size,
                arg.with_base_registers(catalog),
            ),
            ExpressionView::Subpiece { low_byte, size, arg } => ExpressionView::subpiece(
                low_byte,
                size,
                arg.with_base_registers(catalog),
            ),
        }
    }

    /// Whether each variable of the expression that names a register of
    /// `catalog` has the size of that register.
    pub open spec fn sized_as_in(self, catalog: Map<Seq<char>, RegisterPropertiesView>) -> bool
        decreases self,
    {
        match self {
            ExpressionView::Var(variable) => catalog.contains_key(variable.name) ==> variable.size
                == catalog[variable.name].size,
            ExpressionView::Const(_) => true,
            ExpressionView::Unknown { .. } => true,
            ExpressionView::BinOp { lhs, rhs, .. } => lhs.sized_as_in(catalog) && rhs.sized_as_in(
                catalog,
            ),
            ExpressionView::UnOp { arg, .. } => arg.sized_as_in(catalog),
            ExpressionView::Cast { arg, .. } => arg.sized_as_in(catalog),
            ExpressionView::Subpiece { arg, .. } => arg.sized_as_in(catalog),
        }
    }

    /// Whether no variable of the expression names a sub-register of
    /// `catalog`.
    pub open spec fn names_no_sub_register(
        self,
        catalog: Map<Seq<char>, RegisterPropertiesView>,
    ) -> bool
        decreases self,
    {
        match self {
            ExpressionView::Var(variable) => !is_sub_register(catalog, variable.name),
            ExpressionView::Const(_) => true,
            ExpressionView::Unknown { .. } => true,
            ExpressionView::BinOp { lhs, rhs, .. } => lhs.names_no_sub_register(catalog)
                && rhs.names_no_sub_register(catalog),
            ExpressionView::UnOp { arg, .. } => arg.names_no_sub_register(catalog),
            ExpressionView::Cast { arg, .. } => arg.names_no_sub_register(catalog),
            ExpressionView::Subpiece { arg, .. } => arg.names_no_sub_register(catalog),
        }
    }
}

/// Whether the term that follows the assignment to `output` makes the
/// bytes around a sub-register irrelevant: `output` names a sub-register,
/// and the next term assigns to its base register the zero extension of a
/// variable.
pub open spec fn zero_extension_follows(
    output: Option<VariableView>,
    catalog: Map<Seq<char>, RegisterPropertiesView>,
    peeked: Option<DefView>,
) -> bool {
    &&& output matches Some(variable)
    &&& is_sub_register(catalog, variable.name)
    &&& peeked matches Some(DefView::Assign { var, value })
    &&& var.name == catalog[variable.name].base_register
    &&& value.is_zero_extension()
}

/// The variable that an assignment to `output` defines once sub-registers
/// are replaced: the base register in place of a sub-register, and
/// `output` itself otherwise.
pub open spec fn normalized_output(
    output: VariableView,
    catalog: Map<Seq<char>, RegisterPropertiesView>,
) -> VariableView {
    if is_sub_register(catalog, output.name) {
        let base = catalog[output.name].base_register;
        VariableView { name: base, size: catalog[base].size, is_temp: output.is_temp }
    } else {
        output
    }
}

/// The value that an assignment of `value` to `output` gives to the
/// variable [`normalized_output`] once sub-registers are replaced.
///
/// Every sub-register that `value` reads is replaced by an extraction from
/// its base register. Where `output` names a sub-register, the result is
/// the value of the whole base register:
/// - the zero extension of the new value, if the next term extends it by
///   zeros anyway, see [`zero_extension_follows`];
/// - else the new value together with the untouched bytes of the base
///   register, see [`pieced_together`].
pub open spec fn normalized_value(
    value: ExpressionView,
    output: Option<VariableView>,
    catalog: Map<Seq<char>, RegisterPropertiesView>,
    peeked: Option<DefView>,
) -> ExpressionView {
    let rewritten = value.with_base_registers(catalog);
    match output {
        Some(variable) => {
            if is_sub_register(catalog, variable.name) {
                let sub = catalog[variable.name];
                let base = catalog[sub.base_register];
                if zero_extension_follows(output, catalog, peeked) {
                    ExpressionView::cast(CastOpType::IntZExt, base.size, rewritten)
                } else {
                    pieced_together(rewritten, base, sub)
                }
            } else {
                rewritten
            }
        },
        None => rewritten,
    }
}

/// Replacing the sub-registers that an expression reads does not change
/// its size, if its variables have the sizes of their registers.
pub proof fn lemma_with_base_registers_keeps_bytesize(
    expression: ExpressionView,
    catalog: Map<Seq<char>, RegisterPropertiesView>,
)
    requires
        expression.sized_as_in(catalog),
    ensures
        expression.with_base_registers(catalog).bytesize() == expression.bytesize(),
    decreases expression,
{
    match expression {
        ExpressionView::Var(_) => {},
        ExpressionView::Const(_) => {},
        ExpressionView::Unknown { .. } => {},
        ExpressionView::BinOp { lhs, rhs, .. } => {
            lemma_with_base_registers_keeps_bytesize(*lhs, catalog);
            lemma_with_base_registers_keeps_bytesize(*rhs, catalog);
        },
        ExpressionView::UnOp { arg, .. } => {
            lemma_with_base_registers_keeps_bytesize(*arg, catalog);
        },
        ExpressionView::Cast { arg, .. } => {
            lemma_with_base_registers_keeps_bytesize(*arg, catalog);
        },
        ExpressionView::Subpiece { arg, .. } => {
            lemma_with_base_registers_keeps_bytesize(*arg, catalog);
        },
    }
}

/// After the sub-registers that an expression reads are replaced, no
/// variable of the expression names a sub-register.
pub proof fn lemma_with_base_registers_names_no_sub_register(
    expression: ExpressionView,
    catalog: Map<Seq<char>, RegisterPropertiesView>,
)
    requires
        consistent(catalog),
    ensures
        expression.with_base_registers(catalog).names_no_sub_register(catalog),
    decreases expression,
{
    match expression {
        ExpressionView::Var(variable) => {
            if is_sub_register(catalog, variable.name) {
                assert(catalog.contains_key(variable.name));
                assert(catalog.contains_key(catalog[variable.name].base_register));
                reveal_with_fuel(ExpressionView::names_no_sub_register, 2);
            }
        },
        ExpressionView::Const(_) => {},
        ExpressionView::Unknown { .. } => {},
        ExpressionView::BinOp { lhs, rhs, .. } => {
            lemma_with_base_registers_names_no_sub_register(*lhs, catalog);
            lemma_with_base_registers_names_no_sub_register(*rhs, catalog);
        },
        ExpressionView::UnOp { arg, .. } => {
            lemma_with_base_registers_names_no_sub_register(*arg, catalog);
        },
        ExpressionView::Cast { arg, .. } => {
            lemma_with_base_registers_names_no_sub_register(*arg, catalog);
        },
        ExpressionView::Subpiece { arg, .. } => {
            lemma_with_base_registers_names_no_sub_register(*arg, catalog);
        },
    }
}

/// Replacing sub-registers keeps an expression well typed, if its
/// variables have the sizes of their registers.
pub proof fn lemma_with_base_registers_keeps_well_typed(
    expression: ExpressionView,
    catalog: Map<Seq<char>, RegisterPropertiesView>,
)
    requires
        expression.well_typed(),
        expression.sized_as_in(catalog),
    ensures
        expression.with_base_registers(catalog).well_typed(),
    decreases expression,
{
    match expression {
        ExpressionView::Var(_) => {
            reveal_with_fuel(ExpressionView::well_typed, 2);
        },
        ExpressionView::Const(_) => {},
        ExpressionView::Unknown { .. } => {},
        ExpressionView::BinOp { lhs, rhs, .. } => {
            lemma_with_base_registers_keeps_well_typed(*lhs, catalog);
            lemma_with_base_registers_keeps_well_typed(*rhs, catalog);
            lemma_with_base_registers_keeps_bytesize(*lhs, catalog);
            lemma_with_base_registers_keeps_bytesize(*rhs, catalog);
        },
        ExpressionView::UnOp { arg, .. } => {
            lemma_with_base_registers_keeps_well_typed(*arg, catalog);
        },
        ExpressionView::Cast { arg, .. } => {
            lemma_with_base_registers_keeps_well_typed(*arg, catalog);
        },
        ExpressionView::Subpiece { arg, .. } => {
            lemma_with_base_registers_keeps_well_typed(*arg, catalog);
        },
    }
}

/// Normalizing an assignment keeps its value well typed, if the variables
/// of the value have the sizes of their registers.
pub proof fn lemma_normalized_value_keeps_well_typed(
    value: ExpressionView,
    output: Option<VariableView>,
    catalog: Map<Seq<char>, RegisterPropertiesView>,
    peeked: Option<DefView>,
)
    requires
        value.well_typed(),
        value.sized_as_in(catalog),
    ensures
        normalized_value(value, output, catalog, peeked).well_typed(),
{
    lemma_with_base_registers_keeps_well_typed(value, catalog);
    reveal_with_fuel(ExpressionView::well_typed, 4);
}

/// An expression that reads no sub-register is left as it is.
pub proof fn lemma_without_sub_registers_nothing_changes(
    expression: ExpressionView,
    catalog: Map<Seq<char>, RegisterPropertiesView>,
)
    requires
        expression.names_no_sub_register(catalog),
    ensures
        expression.with_base_registers(catalog) == expression,
    decreases expression,
{
    match expression {
        ExpressionView::Var(_) => {},
        ExpressionView::Const(_) => {},
        ExpressionView::Unknown { .. } => {},
        ExpressionView::BinOp { lhs, rhs, .. } => {
            lemma_without_sub_registers_nothing_changes(*lhs, catalog);
            lemma_without_sub_registers_nothing_changes(*rhs, catalog);
        },
        ExpressionView::UnOp { arg, .. } => {
            lemma_without_sub_registers_nothing_changes(*arg, catalog);
        },
        ExpressionView::Cast { arg, .. } => {
            lemma_without_sub_registers_nothing_changes(*arg, catalog);
        },
        ExpressionView::Subpiece { arg, .. } => {
            lemma_without_sub_registers_nothing_changes(*arg, catalog);
        },
    }
}

/// Once an assignment is normalized, normalizing it again changes
/// nothing, whatever term follows it.
pub proof fn lemma_normalized_twice(
    value: ExpressionView,
    output: VariableView,
    catalog: Map<Seq<char>, RegisterPropertiesView>,
    peeked: Option<DefView>,
    peeked_again: Option<DefView>,
)
    requires
        consistent(catalog),
    ensures
        normalized_output(normalized_output(output, catalog), catalog) == normalized_output(
            output,
            catalog,
        ),
        normalized_value(
            normalized_value(value, Some(output), catalog, peeked),
            Some(normalized_output(output, catalog)),
            catalog,
            peeked_again,
        ) == normalized_value(value, Some(output), catalog, peeked),
{
    lemma_normalized_names_no_sub_register(value, Some(output), catalog, peeked);
    lemma_without_sub_registers_nothing_changes(
        normalized_value(value, Some(output), catalog, peeked),
        catalog,
    );
}

/// After an assignment is normalized, neither its output nor any variable
/// of its value names a sub-register.
pub proof fn lemma_normalized_names_no_sub_register(
    value: ExpressionView,
    output: Option<VariableView>,
    catalog: Map<Seq<char>, RegisterPropertiesView>,
    peeked: Option<DefView>,
)
    requires
        consistent(catalog),
    ensures
        normalized_value(value, output, catalog, peeked).names_no_sub_register(catalog),
        output matches Some(variable) ==> !is_sub_register(
            catalog,
            normalized_output(variable, catalog).name,
        ),
{
    lemma_with_base_registers_names_no_sub_register(value, catalog);
    match output {
        Some(variable) => {
            if is_sub_register(catalog, variable.name) {
                assert(catalog.contains_key(variable.name));
                let sub = catalog[variable.name];
                let base = catalog[sub.base_register];
                assert(catalog.contains_key(sub.base_register));
                assert(base.register == sub.base_register);
                reveal_with_fuel(ExpressionView::names_no_sub_register, 4);
            }
        },
        None => {},
    }
}

/// The value of a base register that is pieced together from a new value
/// of the size of the sub-register and the untouched bytes has the size of
/// the base register.
pub proof fn lemma_pieced_together_has_base_size(
    value: ExpressionView,
    base: RegisterPropertiesView,
    sub: RegisterPropertiesView,
)
    requires
        sub.lsb + sub.size <= base.size,
        value.bytesize() == sub.size,
    ensures
        pieced_together(value, base, sub).bytesize() == base.size,
{
    reveal_with_fuel(ExpressionView::bytesize, 3);
}

/// The value written to a base register in place of a sub-register has
/// the size of the base register. This holds of a zero extension, and it
/// holds of a concatenation if the new value, with the sub-registers that
/// it reads replaced, has the size of the sub-register.
/// [`lemma_with_base_registers_keeps_bytesize`] tells when the replacement
/// keeps the size of the new value.
pub proof fn lemma_normalized_value_fills_base_register(
    value: ExpressionView,
    output: VariableView,
    catalog: Map<Seq<char>, RegisterPropertiesView>,
    peeked: Option<DefView>,
)
    requires
        consistent(catalog),
        is_sub_register(catalog, output.name),
        zero_extension_follows(Some(output), catalog, peeked) || value.with_base_registers(
            catalog,
        ).bytesize() == catalog[output.name].size,
    ensures
        normalized_value(value, Some(output), catalog, peeked).bytesize() == normalized_output(
            output,
            catalog,
        ).size,
        normalized_output(output, catalog).size
            == catalog[catalog[output.name].base_register].size,
{
    assert(catalog.contains_key(output.name));
    reveal_with_fuel(ExpressionView::bytesize, 3);
}

/// A write to a sub-register that starts at byte 0 becomes the
/// concatenation of two parts: the bytes of the base register above the
/// sub-register, and the new value.
pub proof fn lemma_write_at_byte_zero(
    value: ExpressionView,
    output: VariableView,
    catalog: Map<Seq<char>, RegisterPropertiesView>,
    peeked: Option<DefView>,
)
    requires
        consistent(catalog),
        is_sub_register(catalog, output.name),
        catalog[output.name].lsb == 0,
        !zero_extension_follows(Some(output), catalog, peeked),
    ensures
        normalized_value(value, Some(output), catalog, peeked) == ExpressionView::piece(
            subpiece_of_base(
                catalog,
                catalog[output.name].base_register,
                catalog[output.name].size,
                (catalog[catalog[output.name].base_register].size
                    - catalog[output.name].size) as nat,
            ),
            value.with_base_registers(catalog),
        ),
{
    assert(catalog.contains_key(output.name));
    assert(catalog.contains_key(catalog[output.name].base_register));
}

/// A write to a sub-register that starts above byte 0 becomes the
/// concatenation of three parts: the bytes of the base register above the
/// sub-register, the new value, and the bytes of the base register below
/// the sub-register.
pub proof fn lemma_write_above_byte_zero(
    value: ExpressionView,
    output: VariableView,
    catalog: Map<Seq<char>, RegisterPropertiesView>,
    peeked: Option<DefView>,
)
    requires
        consistent(catalog),
        is_sub_register(catalog, output.name),
        catalog[output.name].lsb > 0,
        !zero_extension_follows(Some(output), catalog, peeked),
    ensures
        normalized_value(value, Some(output), catalog, peeked) == ExpressionView::piece(
            ExpressionView::piece(
                subpiece_of_base(
                    catalog,
                    catalog[output.name].base_register,
                    catalog[output.name].lsb + catalog[output.name].size,
                    (catalog[catalog[output.name].base_register].size - (catalog[output.name].lsb
                        + catalog[output.name].size)) as nat,
                ),
                value.with_base_registers(catalog),
            ),
            subpiece_of_base(
                catalog,
                catalog[output.name].base_register,
                0,
                catalog[output.name].lsb,
            ),
        ),
{
    assert(catalog.contains_key(output.name));
    assert(catalog.contains_key(catalog[output.name].base_register));
}

/// A write to a sub-register that is followed by a zero extension into
/// the base register becomes a zero extension of the new value, and no
/// concatenation.
pub proof fn lemma_zero_extension_replaces_piece(
    value: ExpressionView,
    output: VariableView,
    catalog: Map<Seq<char>, RegisterPropertiesView>,
    peeked: Option<DefView>,
)
    requires
        zero_extension_follows(Some(output), catalog, peeked),
    ensures
        normalized_value(value, Some(output), catalog, peeked) == ExpressionView::cast(
            CastOpType::IntZExt,
            catalog[catalog[output.name].base_register].size,
            value.with_base_registers(catalog),
        ),
        !(normalized_value(value, Some(output), catalog, peeked) is BinOp),
{
}

/// An assignment to a variable that names no sub-register keeps its
/// output, and its value changes only where it reads a sub-register.
pub proof fn lemma_other_outputs_stay(
    value: ExpressionView,
    output: VariableView,
    catalog: Map<Seq<char>, RegisterPropertiesView>,
    peeked: Option<DefView>,
)
    requires
        !is_sub_register(catalog, output.name),
    ensures
        normalized_output(output, catalog) == output,
        normalized_value(value, Some(output), catalog, peeked) == value.with_base_registers(
            catalog,
        ),
        normalized_value(value, None, catalog, peeked) == value.with_base_registers(catalog),
{
}

impl Expression {
    /// Replace the sub-registers that an assignment of `self` to `output`
    /// names by their base registers.
    ///
    /// `peeked` is the term that follows the assignment in its block, if
    /// there is one. See [`normalized_value`] for the new expression and
    /// [`normalized_output`] for the new output variable.
    pub fn process_sub_registers_if_necessary(
        &mut self,
        output: Option<&mut Variable>,
        register_map: &RegisterCatalog,
        peeked: Option<&Def>,
    )
        ensures
            consistent(register_map@),
            match output {
                Some(variable) => {
                    &&& final(self)@ == normalized_value(
                        old(self)@,
                        Some(variable@),
                        register_map@,
                        match peeked {
                            Some(def) => Some(def@),
                            None => None,
                        },
                    )
                    &&& final(variable)@ == normalized_output(variable@, register_map@)
                    &&& !is_sub_register(register_map@, final(variable)@.name)
                },
                None => final(self)@ == old(self)@.with_base_registers(register_map@),
            },
            final(self)@.names_no_sub_register(register_map@),
    {
        proof {
            use_type_invariant(register_map);
            let peeked_view = match peeked {
                Some(def) => Some(def@),
                None => None,
            };
            let output_view = if output is Some {
                Some(output->Some_0@)
            } else {
                None
            };
            lemma_normalized_names_no_sub_register(self@, output_view, register_map@, peeked_view);
        }
        let mut output_base_size: Option<ByteSize> = None;
        let mut peek_is_zero_extension: bool = false;
        let mut output_base_register: Option<&RegisterProperties> = None;
        let mut output_sub_register: Option<&RegisterProperties> = None;

        if let Some(output_value) = output {
            if let Some(register) = register_map.get(output_value.name.as_str()) {
                if register.register != register.base_register {
                    if let Some(base) = register_map.get(register.base_register.as_str()) {
                        output_sub_register = Some(register);
                        output_base_register = Some(base);
                        output_value.name = register.base_register.clone();
                        output_value.size = base.size;
                        output_base_size = Some(base.size);
                        if let Some(Def::Assign { var, value }) = peeked {
                            if output_value.name == var.name {
                                peek_is_zero_extension = value.check_for_zero_extension();
                            }
                        }
                    }
                }
            }
        }
        self.check_for_sub_register(register_map);
        self.piece_zero_extend_or_none(
            peek_is_zero_extension,
            output_base_register,
            output_base_size,
            output_sub_register,
        );
    }

    /// Replace each variable in the expression that names a sub-register
    /// by the extraction of the sub-register from its base register.
    fn check_for_sub_register(&mut self, register_map: &RegisterCatalog)
        ensures
            final(self)@ == old(self)@.with_base_registers(register_map@),
    {
        let mut taken = Expression::Unknown { description: String::new(), size: ByteSize(0) };
        core::mem::swap(self, &mut taken);
        *self = taken.into_base_registers(register_map);
    }

    /// The expression [`ExpressionView::with_base_registers`], built from
    /// the parts of `self`.
    fn into_base_registers(self, register_map: &RegisterCatalog) -> (result: Expression)
        ensures
            result@ == self@.with_base_registers(register_map@),
        decreases self,
    {
        match self {
            Expression::BinOp { op, lhs, rhs } => Expression::BinOp {
                op,
                lhs: Box::new((*lhs).into_base_registers(register_map)),
                rhs: Box::new((*rhs).into_base_registers(register_map)),
            },
            Expression::UnOp { op, arg } => Expression::UnOp {
                op,
                arg: Box::new((*arg).into_base_registers(register_map)),
            },
            Expression::Cast { op, size, arg } => Expression::Cast {
                op,
                size,
                arg: Box::new((*arg).into_base_registers(register_map)),
            },
            Expression::Subpiece { low_byte, size, arg } => Expression::Subpiece {
                low_byte,
                size,
                arg: Box::new((*arg).into_base_registers(register_map)),
            },
            Expression::Var(variable) => {
                let mut expression = Expression::Var(variable);
                if let Expression::Var(variable) = &expression {
                    if let Some(register) = register_map.get(variable.name.as_str()) {
                        if variable.name != register.base_register {
                            let base = register.base_register.clone();
                            let size = register.size;
                            let lsb = register.lsb;
                            expression.create_subpiece_from_sub_register(
                                base,
                                size,
                                lsb,
                                register_map,
                            );
                        }
                    }
                }
                expression
            },
            Expression::Const(bitvector) => Expression::Const(bitvector),
            Expression::Unknown { description, size } => Expression::Unknown { description, size },
        }
    }

    /// Replace the expression by the extraction of `size` bytes from byte
    /// `lsb` of the base register `base`.
    fn create_subpiece_from_sub_register(
        &mut self,
        base: String,
        size: ByteSize,
        lsb: ByteSize,
        register_map: &RegisterCatalog,
    )
        requires
            register_map@.contains_key(base@),
        ensures
            final(self)@ == subpiece_of_base(register_map@, base@, lsb@, size@),
    {
        proof {
            reveal_with_fuel(<Expression as View>::view, 2);
        }
        let base_size = match register_map.get(base.as_str()) {
            Some(register) => register.size,
            None => ByteSize(0),
        };
        *self = Expression::Subpiece {
            low_byte: lsb,
            size,
            arg: Box::new(Expression::Var(Variable { name: base, size: base_size, is_temp: false })),
        };
    }

    /// Give the expression the shape that the output of its assignment
    /// asks for:
    /// 1. the zero extension of the expression to `output_size`, if the next
    ///    term extends the sub-register that is written by zeros anyway;
    /// 2. else the expression together with the untouched bytes of the base
    ///    register, if a sub-register is written;
    /// 3. else the expression as it is.
    fn piece_zero_extend_or_none(
        &mut self,
        zero_extend: bool,
        output_base_register: Option<&RegisterProperties>,
        output_size: Option<ByteSize>,
        sub_register: Option<&RegisterProperties>,
    )
        requires
            zero_extend ==> output_size is Some,
            output_base_register matches Some(base) ==> {
                &&& sub_register matches Some(sub)
                &&& sub@.lsb + sub@.size <= base@.size
            },
        ensures
            final(self)@ == if zero_extend {
                ExpressionView::Cast {
                    op: CastOpType::IntZExt,
                    size: output_size->Some_0@,
                    arg: Box::new(old(self)@),
                }
            } else if output_base_register is Some {
                pieced_together(old(self)@, output_base_register->Some_0@, sub_register->Some_0@)
            } else {
                old(self)@
            },
    {
        if zero_extend {
            if let Some(size) = output_size {
                let mut taken = Expression::Unknown {
                    description: String::new(),
                    size: ByteSize(0),
                };
                core::mem::swap(self, &mut taken);
                *self = Expression::Cast { op: CastOpType::IntZExt, size, arg: Box::new(taken) };
            }
        } else if let Some(base) = output_base_register {
            if let Some(sub) = sub_register {
                self.piece_two_expressions_together(base, sub);
            }
        }
    }

    /// Replace the expression by the value of the whole base register after
    /// the expression was written to the sub-register, see
    /// [`pieced_together`]. The sub-register must lie inside the base
    /// register.
    pub fn piece_two_expressions_together(
        &mut self,
        output_base_register: &RegisterProperties,
        sub_register: &RegisterProperties,
    )
        requires
            sub_register@.lsb + sub_register@.size <= output_base_register@.size,
        ensures
            final(self)@ == pieced_together(old(self)@, output_base_register@, sub_register@),
            old(self)@.bytesize() == sub_register@.size ==> final(self)@.bytesize()
                == output_base_register@.size,
    {
        proof {
            if self@.bytesize() == sub_register@.size {
                lemma_pieced_together_has_base_size(
                    self@,
                    output_base_register@,
                    sub_register@,
                );
            }
        }
        proof {
            reveal_with_fuel(<Expression as View>::view, 3);
        }
        let base_size: ByteSize = output_base_register.size;
        let sub_size: ByteSize = sub_register.size;
        let sub_lsb: ByteSize = sub_register.lsb;

        let base_subpiece = Expression::Var(
            Variable { name: output_base_register.register.clone(), size: base_size, is_temp: false },
        );
        let mut value = Expression::Unknown { description: String::new(), size: ByteSize(0) };
        core::mem::swap(self, &mut value);

        if sub_lsb.0 > 0 {
            // The bytes above the sub-register, the new value, the bytes below.
            *self = Expression::BinOp {
                op: BinOpType::Piece,
                lhs: Box::new(
                    Expression::BinOp {
                        op: BinOpType::Piece,
                        lhs: Box::new(
                            Expression::Subpiece {
                                low_byte: ByteSize(sub_lsb.0 + sub_size.0),
                                size: ByteSize(base_size.0 - (sub_lsb.0 + sub_size.0)),
                                arg: Box::new(base_subpiece.clone()),
                            },
                        ),
                        rhs: Box::new(value),
                    },
                ),
                rhs: Box::new(
                    Expression::Subpiece {
                        low_byte: ByteSize(0),
                        size: sub_lsb,
                        arg: Box::new(base_subpiece),
                    },
                ),
            };
        }
        else {
            // The bytes above the sub-register and the new value.
            *self = Expression::BinOp {
                op: BinOpType::Piece,
                lhs: Box::new(
                    Expression::Subpiece {
                        low_byte: sub_size,
                        size: ByteSize(base_size.0 - sub_size.0),
                        arg: Box::new(base_subpiece),
                    },
                ),
                rhs: Box::new(value),
            };
        }
    }

    /// Whether the expression is the zero extension of a variable, and of
    /// nothing more than a variable.
    pub fn check_for_zero_extension(&self) -> (zero_extension: bool)
        ensures
            zero_extension == self@.is_zero_extension(),
    {
        proof {
            reveal_with_fuel(<Expression as View>::view, 2);
        }
        match self {
            Expression::Cast { op, arg, .. } => match op {
                CastOpType::IntZExt => match **arg {
                    Expression::Var(_) => true,
                    _ => false,
                },
                _ => false,
            },
            _ => false,
        }
    }
}

/// What a term becomes once sub-registers are replaced, where `peeked` is
/// the term that follows it.
///
/// An assignment defines the variable [`normalized_output`] by the value
/// [`normalized_value`]. A load and a store write no value that this layer
/// describes: only the sub-registers that their expressions read are
/// replaced, and the variable that a load defines stays as it is.
pub open spec fn normalized_def(
    def: DefView,
    catalog: Map<Seq<char>, RegisterPropertiesView>,
    peeked: Option<DefView>,
) -> DefView {
    match def {
        DefView::Assign { var, value } => DefView::Assign {
            var: normalized_output(var, catalog),
            value: normalized_value(value, Some(var), catalog, peeked),
        },
        DefView::Load { var, address } => DefView::Load {
            var,
            address: address.with_base_registers(catalog),
        },
        DefView::Store { address, value } => DefView::Store {
            address: address.with_base_registers(catalog),
            value: value.with_base_registers(catalog),
        },
    }
}

/// The views of the terms of a block.
pub open spec fn def_views(defs: Seq<Def>) -> Seq<DefView> {
    defs.map_values(|def: Def| def@)
}

/// The term that follows the term at `index` in the block, if there is
/// one.
pub open spec fn peeked_at(defs: Seq<DefView>, index: int) -> Option<DefView> {
    if index + 1 < defs.len() {
        Some(defs[index + 1])
    } else {
        None
    }
}

/// What a block becomes once sub-registers are replaced: each term is
/// treated as [`normalized_def`] says, with a look at the term that
/// follows it in the block as it was given.
pub open spec fn normalized_block(
    defs: Seq<DefView>,
    catalog: Map<Seq<char>, RegisterPropertiesView>,
) -> Seq<DefView> {
    Seq::new(defs.len(), |index: int| normalized_def(defs[index], catalog, peeked_at(defs, index)))
}

impl DefView {
    /// Whether no variable in the expressions of the term names a
    /// sub-register of `catalog`, and neither does the variable that the
    /// term assigns to, if it is an assignment.
    pub open spec fn names_no_sub_register(
        self,
        catalog: Map<Seq<char>, RegisterPropertiesView>,
    ) -> bool {
        match self {
            DefView::Assign { var, value } => !is_sub_register(catalog, var.name)
                && value.names_no_sub_register(catalog),
            DefView::Load { address, .. } => address.names_no_sub_register(catalog),
            DefView::Store { address, value } => address.names_no_sub_register(catalog)
                && value.names_no_sub_register(catalog),
        }
    }
}

/// After the sub-registers of a block are replaced, no expression of the
/// block reads a sub-register and no assignment of the block writes one.
pub proof fn lemma_normalized_block_names_no_sub_register(
    defs: Seq<DefView>,
    catalog: Map<Seq<char>, RegisterPropertiesView>,
)
    requires
        consistent(catalog),
    ensures
        normalized_block(defs, catalog).len() == defs.len(),
        forall|index: int|
            0 <= index < defs.len() ==> (#[trigger] normalized_block(
                defs,
                catalog,
            )[index]).names_no_sub_register(catalog),
{
    assert forall|index: int| 0 <= index < defs.len() implies (#[trigger] normalized_block(
        defs,
        catalog,
    )[index]).names_no_sub_register(catalog) by {
        match defs[index] {
            DefView::Assign { var, value } => {
                lemma_normalized_names_no_sub_register(
                    value,
                    Some(var),
                    catalog,
                    peeked_at(defs, index),
                );
            },
            DefView::Load { address, .. } => {
                lemma_with_base_registers_names_no_sub_register(address, catalog);
            },
            DefView::Store { address, value } => {
                lemma_with_base_registers_names_no_sub_register(address, catalog);
                lemma_with_base_registers_names_no_sub_register(value, catalog);
            },
        }
    }
}

impl Def {
    /// Replace the sub-registers that the term names by their base
    /// registers, see [`normalized_def`]. `peeked` is the term that
    /// follows in the block, if there is one.
    pub fn replace_sub_registers(&mut self, register_map: &RegisterCatalog, peeked: Option<&Def>)
        ensures
            final(self)@ == normalized_def(
                old(self)@,
                register_map@,
                match peeked {
                    Some(def) => Some(def@),
                    None => None,
                },
            ),
    {
        let mut taken = Def::Store {
            address: Expression::Unknown { description: String::new(), size: ByteSize(0) },
            value: Expression::Unknown { description: String::new(), size: ByteSize(0) },
        };
        core::mem::swap(self, &mut taken);
        *self = match taken {
            Def::Assign { var, value } => {
                let mut var = var;
                let mut value = value;
                value.process_sub_registers_if_necessary(Some(&mut var), register_map, peeked);
                Def::Assign { var, value }
            },
            Def::Load { var, address } => {
                let mut address = address;
                address.process_sub_registers_if_necessary(None, register_map, peeked);
                Def::Load { var, address }
            },
            Def::Store { address, value } => {
                let mut address = address;
                let mut value = value;
                address.process_sub_registers_if_necessary(None, register_map, peeked);
                value.process_sub_registers_if_necessary(None, register_map, peeked);
                Def::Store { address, value }
            },
        };
    }
}

/// Replace the sub-registers in the terms of a block by their base
/// registers, see [`normalized_block`].
///
/// The terms are treated in their order. Each is treated with a look at
/// the term that follows it, as that term was before the pass.
pub fn replace_sub_registers_in_block(defs: &mut Vec<Def>, register_map: &RegisterCatalog)
    ensures
        def_views(final(defs)@) == normalized_block(def_views(old(defs)@), register_map@),
        final(defs)@.len() == old(defs)@.len(),
        forall|index: int|
            0 <= index < final(defs)@.len() ==> (#[trigger] def_views(
                final(defs)@,
            )[index]).names_no_sub_register(register_map@),
{
    proof {
        use_type_invariant(register_map);
        lemma_normalized_block_names_no_sub_register(def_views(defs@), register_map@);
    }
    let mut normalized: Vec<Def> = Vec::new();
    let mut index: usize = 0;
    while index < defs.len()
        invariant
            index <= defs.len(),
            def_views(normalized@) == normalized_block(def_views(defs@), register_map@).take(
                index as int,
            ),
        decreases defs.len() - index,
    {
        let mut def = defs[index].clone();
        let peeked = if index + 1 < defs.len() {
            Some(&defs[index + 1])
        } else {
            None
        };
        def.replace_sub_registers(register_map, peeked);
        proof {
            let views = def_views(defs@);
            let block = normalized_block(views, register_map@);
            assert(views[index as int] == defs@[index as int]@);
            assert(index + 1 < defs.len() ==> views[index + 1] == defs@[index + 1]@);
            assert(block[index as int] == def@);
            assert(block.take(index + 1) =~= block.take(index as int).push(def@));
        }
        normalized.push(def);
        index = index + 1;
        assert(def_views(normalized@) =~= normalized_block(def_views(defs@), register_map@).take(
            index as int,
        ));
    }
    assert(normalized_block(def_views(defs@), register_map@).take(index as int)
        =~= normalized_block(def_views(defs@), register_map@));
    *defs = normalized;
}

} // verus!
