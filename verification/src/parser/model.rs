//! What parsing a term builds: the variables, operations and scopes of the
//! parser, and the formula a term stands for, defined by recursion on terms.
use vstd::prelude::*;

use crate::domain::bitvector::signed::signed_value;
use crate::domain::bitvector::ConcreteBitvector;
use crate::problem::formula::{FormulaId, OperationId, Variable, VariableId};
use crate::problem::evaluator::values_consistent;
use crate::problem::operation::bi::bi_value;
use crate::problem::valuation::FormulaValues;
use vstd::arithmetic::power2::{lemma2_to64, lemma_pow2_pos, lemma_pow2_unfold, pow2};
use crate::problem::operation::{BiOp, BiOperator, ExtOp, IteOp, Operation, UniOp, UniOperator};

use super::syntax::{SmtConstant, SmtIdentifier, SmtIndex, SmtQualIdentifier, SmtSort, SmtTerm};

verus! {

/// Why a command cannot be parsed.
#[derive(Clone, Copy, Debug, PartialEq, Eq, Structural)]
pub enum ParseError {
    /// A binary constant whose value does not fit in 64 bits.
    BinaryConstantTooBig,
    /// A binary constant with more than `u32::MAX` bits.
    BinaryConstantWidthTooBig,
    /// A numeral, decimal or hexadecimal constant.
    UnsupportedConstant,
    /// A string constant.
    StringConstant,
    /// An identifier qualified with a sort.
    SortedIdentifier,
    /// A name that no scope binds and that is neither `true` nor `false`.
    UnknownIdentifier,
    /// An indexed identifier other than a bit-vector constant `bvN`.
    UnsupportedIndexedIdentifier,
    /// The value of a bit-vector constant `bvN` is not a 64-bit number.
    BitvectorConstantValue,
    /// An indexed identifier or sort without exactly one index.
    IndexCount,
    /// An index that is a symbol where a numeral is expected.
    NonNumeralIndex,
    /// A numeral index that does not fit in 32 bits.
    NumeralTooBig,
    /// A quantified term.
    Quantifier,
    /// A match term.
    MatchTerm,
    /// A term with attributes.
    AttributedTerm,
    /// An application of an unsupported function.
    UnsupportedApplication,
    /// An application with the wrong number of arguments.
    ArgumentCount,
    /// Operands of different widths.
    WidthMismatch,
    /// An if-then-else condition that is not a single bit.
    ConditionWidth,
    /// An extension to a width beyond 32 bits.
    WidthOverflow,
    /// A declared function with parameters.
    FunctionWithParameters,
    /// A sort other than `Bool` and `(_ BitVec n)`.
    UnsupportedSort,
    /// A second declaration of a name.
    DuplicateName,
    /// A status that is not one of the symbols `sat`, `unsat`, `unknown`.
    StatusValue,
    /// A logic other than `QF_BV`.
    UnsupportedLogic,
    /// A command the parser does not support.
    UnsupportedCommand,
    /// The evaluation stack of a term ran out of values.
    EvaluationStack,
}

/// The state that parsing works on: variables, operations and the stack of
/// binding scopes, innermost last.
pub struct ParserModel {
    pub variables: Seq<Variable>,
    pub operations: Seq<Operation>,
    pub scopes: Seq<Map<Seq<char>, FormulaId>>,
}

/// The formula is a variable or an operation of the model.
pub open spec fn id_valid(m: ParserModel, id: FormulaId) -> bool {
    match id {
        FormulaId::Variable(v) => v.0 < m.variables.len(),
        FormulaId::Operation(o) => o.0 < m.operations.len(),
    }
}

/// The width of a formula's result.
pub open spec fn width_of(m: ParserModel, id: FormulaId) -> int {
    match id {
        FormulaId::Variable(v) => m.variables[v.0 as int].width as int,
        FormulaId::Operation(o) => m.operations[o.0 as int].spec_result_width(),
    }
}

/// The model is consistent: every id that a scope binds is valid, the
/// operations refer only to variables and earlier operations, their widths
/// fit in 32 bits, and none of them is linear.
pub open spec fn model_wf(m: ParserModel) -> bool {
    &&& forall|i: int, name: Seq<char>|
        0 <= i < m.scopes.len() && #[trigger] m.scopes[i].dom().contains(name) ==> id_valid(m, m.scopes[i][name])
    &&& forall|j: int| 0 <= j < m.operations.len() ==> 0 <= #[trigger] m.operations[j].spec_result_width() <= u32::MAX
    &&& forall|j: int| 0 <= j < m.operations.len() ==> !(#[trigger] m.operations[j] is Linear)
    &&& forall|j: int, k: int|
        0 <= j < m.operations.len() && 0 <= k < m.operations[j].spec_used_ids().len() ==> earlier(
            m,
            #[trigger] m.operations[j].spec_used_ids()[k],
            j,
        )
}

/// The formula is a variable or an operation before the `j`-th.
pub open spec fn earlier(m: ParserModel, id: FormulaId, j: int) -> bool {
    match id {
        FormulaId::Variable(v) => v.0 < m.variables.len(),
        FormulaId::Operation(o) => o.0 < j,
    }
}

/// The model with an operation added, and the id of its result.
pub open spec fn add_op(m: ParserModel, op: Operation) -> (ParserModel, FormulaId) {
    (
        ParserModel { variables: m.variables, operations: m.operations.push(op), scopes: m.scopes },
        FormulaId::Operation(OperationId(m.operations.len() as usize)),
    )
}

/// The id a name is bound to in the innermost scope binding it.
pub open spec fn lookup(scopes: Seq<Map<Seq<char>, FormulaId>>, name: Seq<char>) -> Option<FormulaId>
    decreases scopes.len(),
{
    if scopes.len() == 0 {
        None
    } else if scopes.last().dom().contains(name) {
        Some(scopes.last()[name])
    } else {
        lookup(scopes.drop_last(), name)
    }
}

/// The value of the first `n` bits of a binary constant, most significant
/// first; `None` where doubling a value of 64 bits would overflow.
pub open spec fn binary_prefix_value(bits: Seq<bool>, n: nat) -> Option<u64>
    decreases n,
{
    if n == 0 {
        Some(0)
    } else {
        match binary_prefix_value(bits, (n - 1) as nat) {
            None => None,
            Some(v) => if v * 2 > u64::MAX {
                None
            } else {
                Some((v * 2 + if bits[n - 1] { 1int } else { 0int }) as u64)
            },
        }
    }
}

/// A binary constant is read most significant bit first: in the value of
/// the first `n` written bits, bit `n - 1 - i` (counted from the least
/// significant) is the written bit `i`, and the value is below `2^n`.
pub proof fn lemma_binary_prefix_bits(bits: Seq<bool>, n: nat)
    requires
        n <= bits.len(),
    ensures
        binary_prefix_value(bits, n) matches Some(v) ==> {
            &&& (v as nat) < pow2(n)
            &&& forall|i: int|
                0 <= i < n ==> ((v as nat) / pow2((n - 1 - i) as nat)) % 2 == (if #[trigger] bits[i] {
                    1nat
                } else {
                    0nat
                })
        },
    decreases n,
{
    if n == 0 {
        lemma2_to64();
        return;
    }
    lemma_binary_prefix_bits(bits, (n - 1) as nat);
    if let Some(w) = binary_prefix_value(bits, (n - 1) as nat) {
        if let Some(v) = binary_prefix_value(bits, n) {
            let b: nat = if bits[n - 1] { 1 } else { 0 };
            assert(v as nat == 2 * (w as nat) + b);
            lemma_pow2_unfold(n);
            assert forall|i: int| 0 <= i < n implies ((v as nat) / pow2((n - 1 - i) as nat)) % 2 == (if #[trigger] bits[i] {
                1nat
            } else {
                0nat
            }) by {
                if i == n - 1 {
                    lemma2_to64();
                    assert(pow2(0) == 1);
                    assert((v as nat) / pow2(0) == v as nat);
                    assert((v as nat) % 2 == b);
                    assert(bits[i] == bits[n - 1]);
                } else {
                    let k = (n - 1 - i) as nat;
                    let p = pow2((k - 1) as nat);
                    lemma_pow2_unfold(k);
                    lemma_pow2_pos((k - 1) as nat);
                    assert(pow2(k) == 2 * p);
                    vstd::arithmetic::div_mod::lemma_div_denominator(v as int, 2, p as int);
                    assert((v as int) / 2 == w as int);
                    assert((v as nat) / pow2(k) == (w as nat) / p);
                    assert(((k - 1) as nat) == ((n - 1) - 1 - i) as nat);
                    assert(((w as nat) / pow2(((n - 1) - 1 - i) as nat)) % 2 == (if bits[i] { 1nat } else { 0nat }));
                    assert(((v as nat) / pow2(k)) % 2 == (if bits[i] { 1nat } else { 0nat }));
                }
            }
        }
    }
}

/// Whether the character is an ASCII digit.
pub open spec fn is_digit(c: char) -> bool {
    '0' <= c <= '9'
}

/// Every character is an ASCII digit.
pub open spec fn all_digits(s: Seq<char>) -> bool {
    forall|i: int| 0 <= i < s.len() ==> is_digit(#[trigger] s[i])
}

/// The value of a sequence of decimal digits.
pub open spec fn digits_value(s: Seq<char>) -> nat
    decreases s.len(),
{
    if s.len() == 0 {
        0
    } else {
        digits_value(s.drop_last()) * 10 + ((s.last() as int) - ('0' as int)) as nat
    }
}

/// A decimal number as `u64::from_str` reads it: an optional `+`, then at
/// least one digit and nothing else, with a value below `2^64`.
pub open spec fn parse_u64(s: Seq<char>) -> Option<u64> {
    let digits = if s.len() > 0 && s[0] == '+' {
        s.skip(1)
    } else {
        s
    };
    if digits.len() > 0 && all_digits(digits) && digits_value(digits) <= u64::MAX {
        Some(digits_value(digits) as u64)
    } else {
        None
    }
}

/// The numeral of an index.
pub open spec fn index_numeral(index: SmtIndex) -> Result<u32, ParseError> {
    match index {
        SmtIndex::Numeral(Some(n)) => Ok(n),
        SmtIndex::Numeral(None) => Err(ParseError::NumeralTooBig),
        SmtIndex::Symbol(_) => Err(ParseError::NonNumeralIndex),
    }
}

/// The formula of a constant term.
pub open spec fn compile_constant(c: SmtConstant, m: ParserModel) -> Result<(ParserModel, FormulaId), ParseError> {
    match c {
        SmtConstant::Binary(bits) => match binary_prefix_value(bits@, bits@.len()) {
            None => Err(ParseError::BinaryConstantTooBig),
            Some(value) => if bits@.len() > u32::MAX {
                Err(ParseError::BinaryConstantWidthTooBig)
            } else {
                Ok(add_op(m, Operation::Constant(value, bits@.len() as u32)))
            },
        },
        SmtConstant::Text => Err(ParseError::StringConstant),
        _ => Err(ParseError::UnsupportedConstant),
    }
}

/// The formula of an identifier: a bound name, `true` or `false`, or a
/// bit-vector constant `(_ bvN w)`.
pub open spec fn compile_identifier(identifier: SmtIdentifier, m: ParserModel) -> Result<(ParserModel, FormulaId), ParseError> {
    match identifier {
        SmtIdentifier::Simple { symbol } => match lookup(m.scopes, symbol@) {
            Some(id) => Ok((m, id)),
            None => if symbol@ == "false"@ {
                Ok(add_op(m, Operation::Constant(0, 1)))
            } else if symbol@ == "true"@ {
                Ok(add_op(m, Operation::Constant(1, 1)))
            } else {
                Err(ParseError::UnknownIdentifier)
            },
        },
        SmtIdentifier::Indexed { symbol, indices } => if !(symbol@.len() >= 2 && symbol@[0] == 'b' && symbol@[1] == 'v') {
            Err(ParseError::UnsupportedIndexedIdentifier)
        } else {
            match parse_u64(symbol@.skip(2)) {
                None => Err(ParseError::BitvectorConstantValue),
                Some(value) => if indices@.len() != 1 {
                    Err(ParseError::IndexCount)
                } else {
                    match index_numeral(indices@[0]) {
                        Err(e) => Err(e),
                        Ok(width) => Ok(add_op(m, Operation::Constant(value, width))),
                    }
                },
            }
        },
    }
}

/// The binary operator of a function symbol.
pub open spec fn bi_operator_of(name: Seq<char>) -> Option<BiOperator> {
    if name == "="@ {
        Some(BiOperator::Eq)
    } else if name == "bvadd"@ {
        Some(BiOperator::Add)
    } else if name == "bvsub"@ {
        Some(BiOperator::Sub)
    } else if name == "and"@ || name == "bvand"@ {
        Some(BiOperator::BitAnd)
    } else if name == "or"@ || name == "bvor"@ {
        Some(BiOperator::BitOr)
    } else if name == "xor"@ || name == "bvxor"@ {
        Some(BiOperator::BitXor)
    } else if name == "bvshl"@ {
        Some(BiOperator::Shl)
    } else if name == "bvlshr"@ {
        Some(BiOperator::Lshr)
    } else if name == "bvashr"@ {
        Some(BiOperator::Ashr)
    } else {
        None
    }
}

/// The operation read from an application computes on its arguments in
/// their written order: a binary operation takes the first argument as its
/// left and the second as its right operand, `ite` gives the second argument
/// where the first is nonzero and the third otherwise, and `not` or `bvnot`
/// gives the complement of its argument.
pub proof fn lemma_application_arguments(symbol: String, args: Seq<FormulaId>, m: ParserModel, values: FormulaValues)
    ensures
        ({
            let q = SmtQualIdentifier::Simple { identifier: SmtIdentifier::Simple { symbol } };
            match application_operation(q, args, m) {
                Ok(op) => {
                    &&& (symbol@ == "not"@ || symbol@ == "bvnot"@) ==> op.spec_value(values) == (values.value(
                        args[0],
                    ).modulus() - 1 - values.value(args[0]).val()) as nat
                    &&& symbol@ == "ite"@ ==> op.spec_value(values) == if values.value(args[0]).value != 0 {
                        values.value(args[1]).val()
                    } else {
                        values.value(args[2]).val()
                    }
                    &&& (symbol@ != "not"@ && symbol@ != "bvnot"@ && symbol@ != "ite"@) ==> bi_operator_of(symbol@) is Some
                        && op.spec_value(values) == bi_value(
                        bi_operator_of(symbol@)->Some_0,
                        values.value(args[0]),
                        values.value(args[1]),
                    )
                },
                Err(_) => true,
            }
        }),
{
    reveal_strlit("not");
    reveal_strlit("bvnot");
    reveal_strlit("ite");
    assert("ite"@[0] != "not"@[0]);
    assert("ite"@.len() != "bvnot"@.len());
}

/// Each SMT-LIB function symbol that names a binary operation is read as
/// the operator of its SMT-LIB meaning, on any two bitvectors of one bound:
/// equality, modular addition and subtraction, bitwise conjunction,
/// disjunction and exclusive disjunction (for Booleans and bitvectors),
/// and the left, logical right and arithmetic right shifts.
pub proof fn lemma_function_symbols_meaning(l: ConcreteBitvector, r: ConcreteBitvector)
    ensures
        bi_operator_of("="@) matches Some(op) && bi_value(op, l, r) == (if l.value == r.value { 1nat } else { 0nat }),
        bi_operator_of("bvadd"@) matches Some(op) && bi_value(op, l, r) == (l.val() + r.val()) % l.modulus(),
        bi_operator_of("bvsub"@) matches Some(op) && bi_value(op, l, r) == ((l.val() - r.val()) % (
        l.modulus() as int)) as nat,
        bi_operator_of("and"@) matches Some(op) && bi_value(op, l, r) == (l.value & r.value) as nat,
        bi_operator_of("bvand"@) matches Some(op) && bi_value(op, l, r) == (l.value & r.value) as nat,
        bi_operator_of("or"@) matches Some(op) && bi_value(op, l, r) == (l.value | r.value) as nat,
        bi_operator_of("bvor"@) matches Some(op) && bi_value(op, l, r) == (l.value | r.value) as nat,
        bi_operator_of("xor"@) matches Some(op) && bi_value(op, l, r) == (l.value ^ r.value) as nat,
        bi_operator_of("bvxor"@) matches Some(op) && bi_value(op, l, r) == (l.value ^ r.value) as nat,
        bi_operator_of("bvshl"@) matches Some(op) && bi_value(op, l, r) == (l.val() * pow2(r.val())) % l.modulus(),
        bi_operator_of("bvlshr"@) matches Some(op) && bi_value(op, l, r) == l.val() / pow2(r.val()),
        bi_operator_of("bvashr"@) matches Some(op) && bi_value(op, l, r) == ((signed_value(l) / (pow2(r.val()) as int))
            % (l.modulus() as int)) as nat,
{
    reveal_strlit("=");
    reveal_strlit("bvadd");
    reveal_strlit("bvsub");
    reveal_strlit("and");
    reveal_strlit("bvand");
    reveal_strlit("or");
    reveal_strlit("bvor");
    reveal_strlit("xor");
    reveal_strlit("bvxor");
    reveal_strlit("bvshl");
    reveal_strlit("bvlshr");
    reveal_strlit("bvashr");
    assert("bvadd"@.len() != "="@.len());
    assert("bvsub"@.len() != "="@.len());
    assert("bvsub"@[2] != "bvadd"@[2]);
    assert("and"@.len() != "="@.len());
    assert("and"@.len() != "bvadd"@.len());
    assert("and"@.len() != "bvsub"@.len());
    assert("bvand"@.len() != "="@.len());
    assert("bvand"@[3] != "bvadd"@[3]);
    assert("bvand"@[2] != "bvsub"@[2]);
    assert("bvand"@.len() != "and"@.len());
    assert("or"@.len() != "="@.len());
    assert("or"@.len() != "bvadd"@.len());
    assert("or"@.len() != "bvsub"@.len());
    assert("or"@.len() != "and"@.len());
    assert("or"@.len() != "bvand"@.len());
    assert("bvor"@.len() != "="@.len());
    assert("bvor"@.len() != "bvadd"@.len());
    assert("bvor"@.len() != "bvsub"@.len());
    assert("bvor"@.len() != "and"@.len());
    assert("bvor"@.len() != "bvand"@.len());
    assert("bvor"@.len() != "or"@.len());
    assert("xor"@.len() != "="@.len());
    assert("xor"@.len() != "bvadd"@.len());
    assert("xor"@.len() != "bvsub"@.len());
    assert("xor"@[0] != "and"@[0]);
    assert("xor"@.len() != "bvand"@.len());
    assert("xor"@.len() != "or"@.len());
    assert("xor"@.len() != "bvor"@.len());
    assert("bvxor"@.len() != "="@.len());
    assert("bvxor"@[2] != "bvadd"@[2]);
    assert("bvxor"@[2] != "bvsub"@[2]);
    assert("bvxor"@.len() != "and"@.len());
    assert("bvxor"@[2] != "bvand"@[2]);
    assert("bvxor"@.len() != "or"@.len());
    assert("bvxor"@.len() != "bvor"@.len());
    assert("bvxor"@.len() != "xor"@.len());
    assert("bvshl"@.len() != "="@.len());
    assert("bvshl"@[2] != "bvadd"@[2]);
    assert("bvshl"@[3] != "bvsub"@[3]);
    assert("bvshl"@.len() != "and"@.len());
    assert("bvshl"@[2] != "bvand"@[2]);
    assert("bvshl"@.len() != "or"@.len());
    assert("bvshl"@.len() != "bvor"@.len());
    assert("bvshl"@.len() != "xor"@.len());
    assert("bvshl"@[2] != "bvxor"@[2]);
    assert("bvlshr"@.len() != "="@.len());
    assert("bvlshr"@.len() != "bvadd"@.len());
    assert("bvlshr"@.len() != "bvsub"@.len());
    assert("bvlshr"@.len() != "and"@.len());
    assert("bvlshr"@.len() != "bvand"@.len());
    assert("bvlshr"@.len() != "or"@.len());
    assert("bvlshr"@.len() != "bvor"@.len());
    assert("bvlshr"@.len() != "xor"@.len());
    assert("bvlshr"@.len() != "bvxor"@.len());
    assert("bvlshr"@.len() != "bvshl"@.len());
    assert("bvashr"@.len() != "="@.len());
    assert("bvashr"@.len() != "bvadd"@.len());
    assert("bvashr"@.len() != "bvsub"@.len());
    assert("bvashr"@.len() != "and"@.len());
    assert("bvashr"@.len() != "bvand"@.len());
    assert("bvashr"@.len() != "or"@.len());
    assert("bvashr"@.len() != "bvor"@.len());
    assert("bvashr"@.len() != "xor"@.len());
    assert("bvashr"@.len() != "bvxor"@.len());
    assert("bvashr"@.len() != "bvshl"@.len());
    assert("bvashr"@[2] != "bvlshr"@[2]);
}

/// The operation of an application of a function to argument formulas.
pub open spec fn application_operation(q: SmtQualIdentifier, args: Seq<FormulaId>, m: ParserModel) -> Result<Operation, ParseError> {
    match q {
        SmtQualIdentifier::Simple { identifier: SmtIdentifier::Simple { symbol } } => {
            let name = symbol@;
            if name == "not"@ || name == "bvnot"@ {
                if args.len() != 1 {
                    Err(ParseError::ArgumentCount)
                } else {
                    Ok(Operation::UniOp(UniOp { op: UniOperator::Not, input_width: width_of(m, args[0]) as u32, inner: args[0] }))
                }
            } else if name == "ite"@ {
                if args.len() != 3 {
                    Err(ParseError::ArgumentCount)
                } else if width_of(m, args[0]) != 1 {
                    Err(ParseError::ConditionWidth)
                } else if width_of(m, args[1]) != width_of(m, args[2]) {
                    Err(ParseError::WidthMismatch)
                } else {
                    Ok(
                        Operation::IteOp(
                            IteOp { condition: args[0], width: width_of(m, args[1]) as u32, formula_then: args[1], formula_else: args[2] },
                        ),
                    )
                }
            } else {
                match bi_operator_of(name) {
                    None => Err(ParseError::UnsupportedApplication),
                    Some(op) => if args.len() != 2 {
                        Err(ParseError::ArgumentCount)
                    } else if width_of(m, args[0]) != width_of(m, args[1]) {
                        Err(ParseError::WidthMismatch)
                    } else {
                        Ok(Operation::BiOp(BiOp { op, input_width: width_of(m, args[0]) as u32, left: args[0], right: args[1] }))
                    },
                }
            }
        },
        SmtQualIdentifier::Simple { identifier: SmtIdentifier::Indexed { symbol, indices } } => if symbol@ == "zero_extend"@ {
            if indices@.len() != 1 {
                Err(ParseError::IndexCount)
            } else {
                match index_numeral(indices@[0]) {
                    Err(e) => Err(e),
                    Ok(extend_by) => if args.len() != 1 {
                        Err(ParseError::ArgumentCount)
                    } else if width_of(m, args[0]) + extend_by > u32::MAX {
                        Err(ParseError::WidthOverflow)
                    } else {
                        Ok(
                            Operation::ExtOp(
                                ExtOp {
                                    signed: false,
                                    input_width: width_of(m, args[0]) as u32,
                                    output_width: (width_of(m, args[0]) + extend_by) as u32,
                                    inner: args[0],
                                },
                            ),
                        )
                    },
                }
            }
        } else {
            Err(ParseError::UnsupportedApplication)
        },
        SmtQualIdentifier::Sorted { .. } => Err(ParseError::SortedIdentifier),
    }
}

/// The formula of an application: its operation added to the model.
pub open spec fn compile_application(q: SmtQualIdentifier, args: Seq<FormulaId>, m: ParserModel) -> Result<(ParserModel, FormulaId), ParseError> {
    match application_operation(q, args, m) {
        Err(e) => Err(e),
        Ok(op) => Ok(add_op(m, op)),
    }
}

/// The names bound by a let, each to its id, later ones taking precedence.
pub open spec fn bind_names(names: Seq<String>, ids: Seq<FormulaId>) -> Map<Seq<char>, FormulaId>
    decreases names.len(),
{
    if names.len() == 0 || ids.len() == 0 {
        Map::empty()
    } else {
        bind_names(names.drop_last(), ids.drop_last()).insert(names.last()@, ids.last())
    }
}

/// The model with a scope pushed.
pub open spec fn push_scope(m: ParserModel, scope: Map<Seq<char>, FormulaId>) -> ParserModel {
    ParserModel { variables: m.variables, operations: m.operations, scopes: m.scopes.push(scope) }
}

/// The model with the innermost scope popped, if there is one.
pub open spec fn pop_scope(m: ParserModel) -> ParserModel {
    ParserModel {
        variables: m.variables,
        operations: m.operations,
        scopes: if m.scopes.len() > 0 {
            m.scopes.drop_last()
        } else {
            m.scopes
        },
    }
}

/// The names of let bindings.
pub open spec fn binding_names(bindings: Seq<(String, SmtTerm)>) -> Seq<String> {
    bindings.map_values(|b: (String, SmtTerm)| b.0)
}

/// The formula of a term, built on the model: the arguments of an
/// application left to right, then its operation; the bindings of a let in
/// the outer scopes, then its body in a scope binding their names.
pub open spec fn compile_term(t: SmtTerm, m: ParserModel) -> Result<(ParserModel, FormulaId), ParseError>
    decreases t,
{
    match t {
        SmtTerm::Constant(c) => compile_constant(c, m),
        SmtTerm::QualIdentifier(SmtQualIdentifier::Simple { identifier }) => compile_identifier(identifier, m),
        SmtTerm::QualIdentifier(SmtQualIdentifier::Sorted { .. }) => Err(ParseError::SortedIdentifier),
        SmtTerm::Application { qual_identifier, arguments } => match compile_terms(arguments@, m) {
            Err(e) => Err(e),
            Ok((m1, ids)) => compile_application(qual_identifier, ids, m1),
        },
        SmtTerm::Let { var_bindings, term } => match compile_bindings(var_bindings@, m) {
            Err(e) => Err(e),
            Ok((m1, ids)) => match compile_term(*term, push_scope(m1, bind_names(binding_names(var_bindings@), ids))) {
                Err(e) => Err(e),
                Ok((m2, id)) => Ok((pop_scope(m2), id)),
            },
        },
        SmtTerm::Forall | SmtTerm::Exists => Err(ParseError::Quantifier),
        SmtTerm::Match => Err(ParseError::MatchTerm),
        SmtTerm::Attributes => Err(ParseError::AttributedTerm),
    }
}

/// The formulas of terms, built left to right.
pub open spec fn compile_terms(ts: Seq<SmtTerm>, m: ParserModel) -> Result<(ParserModel, Seq<FormulaId>), ParseError>
    decreases ts,
{
    if ts.len() == 0 {
        Ok((m, Seq::empty()))
    } else {
        match compile_term(ts[0], m) {
            Err(e) => Err(e),
            Ok((m1, id)) => match compile_terms(ts.subrange(1, ts.len() as int), m1) {
                Err(e) => Err(e),
                Ok((m2, ids)) => Ok((m2, seq![id] + ids)),
            },
        }
    }
}

/// The formulas of the terms of let bindings, built left to right.
pub open spec fn compile_bindings(bs: Seq<(String, SmtTerm)>, m: ParserModel) -> Result<(ParserModel, Seq<FormulaId>), ParseError>
    decreases bs,
{
    if bs.len() == 0 {
        Ok((m, Seq::empty()))
    } else {
        match compile_term(bs[0].1, m) {
            Err(e) => Err(e),
            Ok((m1, id)) => match compile_bindings(bs.subrange(1, bs.len() as int), m1) {
                Err(e) => Err(e),
                Ok((m2, ids)) => Ok((m2, seq![id] + ids)),
            },
        }
    }
}

/// The second model has the variables and scopes of the first and extends
/// its operations.
pub open spec fn extends(m: ParserModel, m1: ParserModel) -> bool {
    &&& m1.variables == m.variables
    &&& m1.scopes == m.scopes
    &&& m.operations.len() <= m1.operations.len()
    &&& m1.operations.subrange(0, m.operations.len() as int) == m.operations
}

/// A name found in the scopes is bound in one of them.
pub proof fn lemma_lookup_found(scopes: Seq<Map<Seq<char>, FormulaId>>, name: Seq<char>)
    ensures
        lookup(scopes, name) matches Some(id) ==> exists|i: int|
            0 <= i < scopes.len() && #[trigger] scopes[i].dom().contains(name) && scopes[i][name] == id,
    decreases scopes.len(),
{
    if scopes.len() > 0 && !scopes.last().dom().contains(name) {
        lemma_lookup_found(scopes.drop_last(), name);
        if let Some(id) = lookup(scopes.drop_last(), name) {
            let i = choose|i: int|
                0 <= i < scopes.drop_last().len() && #[trigger] scopes.drop_last()[i].dom().contains(name)
                    && scopes.drop_last()[i][name] == id;
            assert(scopes[i] == scopes.drop_last()[i]);
        }
    }
}

/// Every name that a let binds is bound to one of its ids.
pub proof fn lemma_bind_names_ids(names: Seq<String>, ids: Seq<FormulaId>, name: Seq<char>)
    ensures
        bind_names(names, ids).dom().contains(name) ==> exists|i: int|
            0 <= i < ids.len() && #[trigger] ids[i] == bind_names(names, ids)[name],
    decreases names.len(),
{
    if names.len() > 0 && ids.len() > 0 {
        if names.last()@ != name {
            lemma_bind_names_ids(names.drop_last(), ids.drop_last(), name);
            if bind_names(names, ids).dom().contains(name) {
                let i = choose|i: int|
                    0 <= i < ids.drop_last().len() && #[trigger] ids.drop_last()[i] == bind_names(
                        names.drop_last(),
                        ids.drop_last(),
                    )[name];
                assert(ids[i] == ids.drop_last()[i]);
            }
        } else {
            assert(ids[ids.len() - 1] == bind_names(names, ids)[name]);
        }
    }
}

/// Adding an operation whose operands are valid keeps the model consistent.
pub proof fn lemma_add_op_wf(m: ParserModel, op: Operation)
    requires
        model_wf(m),
        0 <= op.spec_result_width() <= u32::MAX,
        !(op is Linear),
        forall|k: int| 0 <= k < op.spec_used_ids().len() ==> id_valid(m, #[trigger] op.spec_used_ids()[k]),
    ensures
        model_wf(add_op(m, op).0),
        extends(m, add_op(m, op).0),
        id_valid(add_op(m, op).0, add_op(m, op).1),
{
    let m1 = add_op(m, op).0;
    assert(m1.operations.subrange(0, m.operations.len() as int) =~= m.operations);
    assert forall|i: int, name: Seq<char>|
        0 <= i < m1.scopes.len() && #[trigger] m1.scopes[i].dom().contains(name) implies id_valid(m1, m1.scopes[i][name]) by {
        assert(id_valid(m, m.scopes[i][name]));
    }
    assert forall|j: int, k: int|
        0 <= j < m1.operations.len() && 0 <= k < m1.operations[j].spec_used_ids().len() implies earlier(
        m1,
        #[trigger] m1.operations[j].spec_used_ids()[k],
        j,
    ) by {
        if j < m.operations.len() {
            assert(m1.operations[j] == m.operations[j]);
            assert(earlier(m, m.operations[j].spec_used_ids()[k], j));
        } else {
            assert(id_valid(m, op.spec_used_ids()[k]));
        }
    }
    assert forall|j: int| 0 <= j < m1.operations.len() implies 0 <= #[trigger] m1.operations[j].spec_result_width()
        <= u32::MAX && !(m1.operations[j] is Linear) by {
        if j < m.operations.len() {
            assert(m1.operations[j] == m.operations[j]);
        }
    }
}

/// An id valid in a model stays valid in a model extending it.
pub proof fn lemma_extends_valid(m: ParserModel, m1: ParserModel, id: FormulaId)
    requires
        extends(m, m1),
        id_valid(m, id),
    ensures
        id_valid(m1, id),
{
}

/// Extension is transitive.
pub proof fn lemma_extends_trans(m: ParserModel, m1: ParserModel, m2: ParserModel)
    requires
        extends(m, m1),
        extends(m1, m2),
    ensures
        extends(m, m2),
{
    assert(m2.operations.subrange(0, m.operations.len() as int) =~= m1.operations.subrange(0, m.operations.len() as int));
}

/// Building a term keeps the model consistent, extends it, and gives a
/// valid formula.
pub proof fn lemma_compile_term(t: SmtTerm, m: ParserModel)
    requires
        model_wf(m),
    ensures
        compile_term(t, m) matches Ok((m1, id)) ==> model_wf(m1) && extends(m, m1) && id_valid(m1, id),
    decreases t,
{
    match t {
        SmtTerm::Constant(c) => {
            if let SmtConstant::Binary(bits) = c {
                if let Some(value) = binary_prefix_value(bits@, bits@.len()) {
                    if bits@.len() <= u32::MAX {
                        lemma_add_op_wf(m, Operation::Constant(value, bits@.len() as u32));
                    }
                }
            }
        },
        SmtTerm::QualIdentifier(SmtQualIdentifier::Simple { identifier }) => {
            match identifier {
                SmtIdentifier::Simple { symbol } => {
                    lemma_lookup_found(m.scopes, symbol@);
                    lemma_add_op_wf(m, Operation::Constant(0, 1));
                    lemma_add_op_wf(m, Operation::Constant(1, 1));
                    assert(m.operations.subrange(0, m.operations.len() as int) =~= m.operations);
                },
                SmtIdentifier::Indexed { symbol, indices } => {
                    if let Some(value) = parse_u64(symbol@.skip(2)) {
                        if indices@.len() == 1 {
                            if let Ok(width) = index_numeral(indices@[0]) {
                                lemma_add_op_wf(m, Operation::Constant(value, width));
                            }
                        }
                    }
                },
            }
        },
        SmtTerm::Application { qual_identifier, arguments } => {
            lemma_compile_terms(arguments@, m);
            if let Ok((m1, ids)) = compile_terms(arguments@, m) {
                if let Ok(op) = application_operation(qual_identifier, ids, m1) {
                    lemma_application_operation(qual_identifier, ids, m1);
                    lemma_add_op_wf(m1, op);
                    lemma_extends_trans(m, m1, add_op(m1, op).0);
                }
            }
        },
        SmtTerm::Let { var_bindings, term } => {
            lemma_compile_bindings(var_bindings@, m);
            if let Ok((m1, ids)) = compile_bindings(var_bindings@, m) {
                let scope = bind_names(binding_names(var_bindings@), ids);
                let m2 = push_scope(m1, scope);
                assert forall|i: int, name: Seq<char>|
                    0 <= i < m2.scopes.len() && #[trigger] m2.scopes[i].dom().contains(name) implies id_valid(
                    m2,
                    m2.scopes[i][name],
                ) by {
                    if i < m1.scopes.len() {
                        assert(m2.scopes[i] == m1.scopes[i]);
                    } else {
                        lemma_bind_names_ids(binding_names(var_bindings@), ids, name);
                    }
                }
                lemma_compile_term(*term, m2);
                if let Ok((m3, id)) = compile_term(*term, m2) {
                    assert(m3.scopes.drop_last() =~= m1.scopes);
                    let m4 = pop_scope(m3);
                    assert forall|i: int, name: Seq<char>|
                        0 <= i < m4.scopes.len() && #[trigger] m4.scopes[i].dom().contains(name) implies id_valid(
                        m4,
                        m4.scopes[i][name],
                    ) by {
                        assert(m4.scopes[i] == m3.scopes[i]);
                    }
                    assert(m3.operations.subrange(0, m.operations.len() as int) =~= m1.operations.subrange(0, m.operations.len() as int));
                }
            }
        },
        _ => {},
    }
}

/// Building terms keeps the model consistent, extends it, and gives valid
/// formulas.
pub proof fn lemma_compile_terms(ts: Seq<SmtTerm>, m: ParserModel)
    requires
        model_wf(m),
    ensures
        compile_terms(ts, m) matches Ok((m1, ids)) ==> model_wf(m1) && extends(m, m1) && forall|i: int|
            0 <= i < ids.len() ==> id_valid(m1, #[trigger] ids[i]),
    decreases ts,
{
    if ts.len() == 0 {
        assert(m.operations.subrange(0, m.operations.len() as int) =~= m.operations);
    } else {
        lemma_compile_term(ts[0], m);
        if let Ok((m1, id)) = compile_term(ts[0], m) {
            lemma_compile_terms(ts.subrange(1, ts.len() as int), m1);
            if let Ok((m2, ids)) = compile_terms(ts.subrange(1, ts.len() as int), m1) {
                lemma_extends_trans(m, m1, m2);
                let all = seq![id] + ids;
                assert forall|i: int| 0 <= i < all.len() implies id_valid(m2, #[trigger] all[i]) by {
                    if i > 0 {
                        assert(all[i] == ids[i - 1]);
                    }
                }
            }
        }
    }
}

/// Building binding terms keeps the model consistent, extends it, and gives
/// valid formulas.
pub proof fn lemma_compile_bindings(bs: Seq<(String, SmtTerm)>, m: ParserModel)
    requires
        model_wf(m),
    ensures
        compile_bindings(bs, m) matches Ok((m1, ids)) ==> model_wf(m1) && extends(m, m1) && forall|i: int|
            0 <= i < ids.len() ==> id_valid(m1, #[trigger] ids[i]),
    decreases bs,
{
    if bs.len() == 0 {
        assert(m.operations.subrange(0, m.operations.len() as int) =~= m.operations);
    } else {
        lemma_compile_term(bs[0].1, m);
        if let Ok((m1, id)) = compile_term(bs[0].1, m) {
            lemma_compile_bindings(bs.subrange(1, bs.len() as int), m1);
            if let Ok((m2, ids)) = compile_bindings(bs.subrange(1, bs.len() as int), m1) {
                lemma_extends_trans(m, m1, m2);
                let all = seq![id] + ids;
                assert forall|i: int| 0 <= i < all.len() implies id_valid(m2, #[trigger] all[i]) by {
                    if i > 0 {
                        assert(all[i] == ids[i - 1]);
                    }
                }
            }
        }
    }
}

/// The operation of an application uses only its arguments and has a
/// result width of 32 bits.
pub proof fn lemma_application_operation(q: SmtQualIdentifier, args: Seq<FormulaId>, m: ParserModel)
    requires
        forall|i: int| 0 <= i < args.len() ==> id_valid(m, #[trigger] args[i]),
    ensures
        application_operation(q, args, m) matches Ok(op) ==> {
            &&& 0 <= op.spec_result_width() <= u32::MAX
            &&& !(op is Linear)
            &&& forall|k: int| 0 <= k < op.spec_used_ids().len() ==> id_valid(m, #[trigger] op.spec_used_ids()[k])
        },
{
    if let Ok(op) = application_operation(q, args, m) {
        assert forall|k: int| 0 <= k < op.spec_used_ids().len() implies id_valid(m, #[trigger] op.spec_used_ids()[k]) by {
            match op {
                Operation::UniOp(u) => {
                    assert(op.spec_used_ids()[k] == args[0]);
                },
                Operation::BiOp(b) => {
                    assert(op.spec_used_ids()[k] == args[k]);
                },
                Operation::ExtOp(e) => {
                    assert(op.spec_used_ids()[k] == args[0]);
                },
                Operation::IteOp(i) => {
                    assert(op.spec_used_ids()[k] == args[k]);
                },
                _ => {},
            }
        }
    }
}

/// The width a declared sort gives: `Bool` one, `(_ BitVec n)` n.
pub open spec fn sort_width(sort: SmtSort) -> Result<u32, ParseError> {
    match sort {
        SmtSort::Simple { identifier: SmtIdentifier::Indexed { symbol, indices } } => if symbol@ != "BitVec"@ {
            Err(ParseError::UnsupportedSort)
        } else if indices@.len() != 1 {
            Err(ParseError::IndexCount)
        } else {
            index_numeral(indices@[0])
        },
        SmtSort::Simple { identifier: SmtIdentifier::Simple { symbol } } => if symbol@ == "Bool"@ {
            Ok(1)
        } else {
            Err(ParseError::UnsupportedSort)
        },
        SmtSort::Parameterized => Err(ParseError::UnsupportedSort),
    }
}

/// The model after declaring a constant (a function without parameters):
/// a new variable of the sort's width, bound to the name in the global
/// scope, which must not bind it yet.
pub open spec fn declare(name: Seq<char>, parameter_count: nat, sort: SmtSort, m: ParserModel) -> Result<ParserModel, ParseError> {
    if parameter_count != 0 {
        Err(ParseError::FunctionWithParameters)
    } else {
        match sort_width(sort) {
            Err(e) => Err(e),
            Ok(width) => if m.scopes[0].dom().contains(name) {
                Err(ParseError::DuplicateName)
            } else {
                Ok(
                    ParserModel {
                        variables: m.variables.push(Variable { width }),
                        operations: m.operations,
                        scopes: m.scopes.update(
                            0,
                            m.scopes[0].insert(name, FormulaId::Variable(VariableId(m.variables.len() as usize))),
                        ),
                    },
                )
            },
        }
    }
}

/// The operations that join the first `k` assertions by bitwise and, each
/// taking the join so far and the next assertion; the first one gets the
/// index `base`.
pub open spec fn conjunction_operations(assertions: Seq<FormulaId>, k: nat, base: nat) -> Seq<Operation>
    decreases k,
{
    if k <= 1 {
        Seq::empty()
    } else {
        conjunction_operations(assertions, (k - 1) as nat, base).push(
            Operation::BiOp(
                BiOp {
                    op: BiOperator::BitAnd,
                    input_width: 1,
                    left: conjunction_formula(assertions, (k - 1) as nat, base),
                    right: assertions[k - 1],
                },
            ),
        )
    }
}

/// The formula of the join of the first `k` assertions.
pub open spec fn conjunction_formula(assertions: Seq<FormulaId>, k: nat, base: nat) -> FormulaId {
    if k <= 1 {
        assertions[0]
    } else {
        FormulaId::Operation(OperationId((base + k - 2) as usize))
    }
}

/// The operation at place `j` of the join of the first `k` assertions
/// takes the join of the first `j + 1` and the assertion `j + 1`.
proof fn lemma_conjunction_operations_shape(assertions: Seq<FormulaId>, k: nat, base: nat)
    ensures
        conjunction_operations(assertions, k, base).len() == (if k <= 1 { 0 } else { k - 1 }),
        forall|j: int|
            0 <= j < conjunction_operations(assertions, k, base).len() ==> #[trigger] conjunction_operations(
                assertions,
                k,
                base,
            )[j] == Operation::BiOp(
                BiOp {
                    op: BiOperator::BitAnd,
                    input_width: 1,
                    left: conjunction_formula(assertions, (j + 1) as nat, base),
                    right: assertions[j + 1],
                },
            ),
    decreases k,
{
    if k > 1 {
        lemma_conjunction_operations_shape(assertions, (k - 1) as nat, base);
    }
}

/// Joining assertions by bitwise and: on any values of the formulas that
/// agree with the operations, where the join of the first `k` single-bit
/// assertions is known, each of them is known and the join is one exactly
/// when every one of them is one.
#[verifier::spinoff_prover]
#[verifier::rlimit(40)]
pub proof fn lemma_conjunction_value(before: Seq<Operation>, assertions: Seq<FormulaId>, values: FormulaValues, k: nat)
    requires
        1 <= k <= assertions.len(),
        before.len() + assertions.len() <= usize::MAX + 1,
        values_consistent(before + conjunction_operations(assertions, assertions.len(), before.len()), values),
        forall|i: int|
            0 <= i < assertions.len() && values.has(assertions[i]) ==> #[trigger] values.value(assertions[i]).value < 2,
        values.has(conjunction_formula(assertions, k, before.len())),
    ensures
        forall|i: int| 0 <= i < k ==> values.has(#[trigger] assertions[i]),
        values.value(conjunction_formula(assertions, k, before.len())).value < 2,
        values.value(conjunction_formula(assertions, k, before.len())).value == 1 <==> forall|i: int|
            0 <= i < k ==> values.value(#[trigger] assertions[i]).value == 1,
    decreases k,
{
    let base = before.len();
    let n = assertions.len();
    let ops = before + conjunction_operations(assertions, n, base);
    if k == 1 {
        assert(values.value(assertions[0]).value < 2);
        return;
    }
    lemma_conjunction_operations_shape(assertions, n, base);
    let j = k - 2;
    let o = (base + j) as int;
    assert(conjunction_formula(assertions, k, base) == FormulaId::Operation(OperationId(o as usize)));
    assert(ops[o] == conjunction_operations(assertions, n, base)[j as int]);
    let left = conjunction_formula(assertions, (k - 1) as nat, base);
    let right = assertions[k - 1];
    assert(ops[o] == Operation::BiOp(BiOp { op: BiOperator::BitAnd, input_width: 1, left, right }));
    assert(values.operations@[o] is Some);
    assert(ops[o].evaluable(values));
    lemma_conjunction_value(before, assertions, values, (k - 1) as nat);
    let l = values.value(left).value;
    let r = values.value(right).value;
    assert(r < 2);
    let c = values.value(conjunction_formula(assertions, k, base));
    assert(c.val() == (l & r) as nat);
    assert(l < 2 && r < 2 ==> (l & r) < 2 && ((l & r) == 1 <==> (l == 1 && r == 1))) by (bit_vector);
    assert forall|i: int| 0 <= i < k implies values.has(#[trigger] assertions[i]) by {
        if i < k - 1 {
            assert(values.has(assertions[i]));
        }
    }
    if c.value == 1 {
        assert forall|i: int| 0 <= i < k implies values.value(#[trigger] assertions[i]).value == 1 by {
            if i < k - 1 {
                assert(values.value(assertions[i]).value == 1);
            }
        }
    }
    if forall|i: int| 0 <= i < k ==> values.value(#[trigger] assertions[i]).value == 1 {
        assert forall|i: int| 0 <= i < k - 1 implies values.value(#[trigger] assertions[i]).value == 1 by {
            assert(values.value(assertions[i]).value == 1);
        }
        assert(values.value(assertions[k - 1]).value == 1);
    }
}

} // verus!
