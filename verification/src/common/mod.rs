//! Definitions shared by every stage of the compiler: data types, constants,
//! source locations, the string pool, tokens and errors.

mod span;
mod token;
mod error;
mod string_pool;
mod table;

use vstd::prelude::*;

pub use span::Span;
pub use token::{RawToken, Token, TokenType};
pub use error::{Error, Result, located as error_located};
pub use string_pool::{StringPool, StrDescriptor};
pub use table::{find_key, find_in_scopes, keys_unique, has_key, as_map, innermost, lemma_as_map_index, lemma_as_map_push, lemma_as_map_update};

verus! {

#[derive(Debug, Clone, Copy, PartialEq, Eq, Hash, Structural)]
pub enum DataType {
    Int,
    Long,
    Void,
    Indeterminate,
}

impl DataType {
    /// Whether values of this type occupy memory (`int` and `long` only).
    pub open spec fn is_sized(self) -> bool {
        self is Int || self is Long
    }

    pub open spec fn spec_size(self) -> usize {
        if self is Int { 4 } else { 8 }
    }

    /// The common super type of two types, if they can be used together.
    pub open spec fn spec_common(self, other: DataType) -> Option<DataType> {
        if self == other {
            Some(self)
        } else if (self is Int && other is Long) || (self is Long && other is Int) {
            Some(DataType::Long)
        } else {
            None
        }
    }

    pub fn size(&self) -> (r: usize)
        requires self.is_sized(),
        ensures r == self.spec_size(),
    {
        match self {
            DataType::Int => 4,
            _ => 8,
        }
    }

    pub fn align(&self) -> (r: usize)
        requires self.is_sized(),
        ensures r == self.spec_size(),
    {
        match self {
            DataType::Int => 4,
            _ => 8,
        }
    }

    /// This always returns the super type of the two data types.
    /// If the two types are not compatible, it returns an error.
    pub fn common(&self, other: &DataType, span: Span) -> (r: Result<DataType>)
        ensures
            match self.spec_common(*other) {
                Some(t) => r == Ok::<DataType, Error>(t),
                None => r matches Err(Error::Semantic(m)) && m@ == error::located(
                    "Cannot use "@ + self.spec_name() + " and "@ + other.spec_name() + " together"@, span),
            },
    {
        if *self == *other {
            Ok(*self)
        } else if (*self == DataType::Int && *other == DataType::Long)
            || (*self == DataType::Long && *other == DataType::Int) {
            Ok(DataType::Long)
        } else {
            let mut msg: Vec<char> = Vec::new();
            crate::text::push_str(&mut msg, "Cannot use ");
            self.push_name(&mut msg);
            crate::text::push_str(&mut msg, " and ");
            other.push_name(&mut msg);
            crate::text::push_str(&mut msg, " together");
            proof {
                assert(msg@ =~= "Cannot use "@ + self.spec_name() + " and "@ + other.spec_name() + " together"@);
            }
            Err(Error::semantic(crate::text::string_from_chars(&msg), span))
        }
    }

    /// The name of the type as a sized integer, `i32` or `i64`.
    pub fn sized_str(&self) -> (r: &'static str)
        requires self.is_sized(),
        ensures r@ == (if *self is Int { "i32"@ } else { "i64"@ }),
    {
        match self {
            DataType::Int => "i32",
            _ => "i64",
        }
    }

    pub open spec fn spec_name(self) -> Seq<char> {
        match self {
            DataType::Int => "int"@,
            DataType::Long => "long"@,
            DataType::Void => "void"@,
            DataType::Indeterminate => "indeterminate"@,
        }
    }

    /// Appends the C name of the type.
    pub fn push_name(&self, out: &mut Vec<char>)
        ensures final(out)@ == old(out)@ + self.spec_name(),
    {
        match self {
            DataType::Int => crate::text::push_str(out, "int"),
            DataType::Long => crate::text::push_str(out, "long"),
            DataType::Void => crate::text::push_str(out, "void"),
            DataType::Indeterminate => crate::text::push_str(out, "indeterminate"),
        }
    }
}


/// Division rounding toward zero, as the machine does.
/// The value C gives a condition: 1 when it holds, 0 otherwise.
pub open spec fn bool_value(b: bool) -> int {
    if b { 1 } else { 0 }
}

pub open spec fn trunc_div(a: int, b: int) -> int {
    let ua = if a >= 0 { a } else { -a };
    let ub = if b >= 0 { b } else { -b };
    if (a >= 0) == (b > 0) { ua / ub } else { -(ua / ub) }
}

/// The remainder that goes with `trunc_div`: it has the sign of `a`.
pub open spec fn trunc_rem(a: int, b: int) -> int {
    a - b * trunc_div(a, b)
}

/// The quotient, rounded toward zero, of two values within 64 bits.
fn div_toward_zero(x: i128, y: i128) -> (r: (i128, i128))
    requires
        y != 0,
        -0x8000_0000_0000_0000 <= x <= 0x8000_0000_0000_0000,
        -0x8000_0000_0000_0000 <= y <= 0x8000_0000_0000_0000,
    ensures
        r.0 == trunc_div(x as int, y as int),
        r.1 == trunc_rem(x as int, y as int),
        -(if x >= 0 { x as int } else { -x }) <= r.0 <= (if x >= 0 { x as int } else { -x }),
        r.0 == 0x8000_0000_0000_0000 || r.0 == -0x8000_0000_0000_0000 ==> (y == 1 || y == -1),
        -(if y >= 0 { y as int } else { -y }) < r.1 < (if y >= 0 { y as int } else { -y }),
{
    let ux: i128 = if x >= 0 { x } else { -x };
    let uy: i128 = if y >= 0 { y } else { -y };
    let q: i128 = ux / uy;
    assert(0 <= q <= ux && uy * q <= ux && ux - uy * q < uy) by (nonlinear_arith)
        requires ux >= 0, uy >= 1, q == ux as int / uy as int;
    if q == 0x8000_0000_0000_0000 {
        assert(uy <= 1) by (nonlinear_arith)
            requires uy * q <= ux, ux <= 0x8000_0000_0000_0000, q == 0x8000_0000_0000_0000, uy >= 1;
    }
    let quot: i128 = if (x >= 0) == (y > 0) { q } else { -q };
    assert(y * quot == (if x >= 0 { uy * q } else { -(uy * q) })) by (nonlinear_arith)
        requires uy == (if y >= 0 { y as int } else { -y }), quot == (if (x >= 0) == (y > 0) { q as int } else { -q }), y != 0;
    assert(-0x8000_0000_0000_0000 * 0x8000_0000_0000_0000 <= y * quot <= 0x8000_0000_0000_0000 * 0x8000_0000_0000_0000) by (nonlinear_arith)
        requires -0x8000_0000_0000_0000 <= y <= 0x8000_0000_0000_0000, -0x8000_0000_0000_0000 <= quot <= 0x8000_0000_0000_0000;
    let rem: i128 = x - y * quot;
    (quot, rem)
}

#[derive(Debug, Clone, PartialEq, Eq)]
pub struct FuncType {
    pub return_type: DataType,
    pub param_types: Vec<DataType>,
}

impl FuncType {
    /// Whether two function types are the same.
    pub fn same_as(&self, other: &FuncType) -> (r: bool)
        ensures r == (self.return_type == other.return_type && self.param_types@ == other.param_types@),
    {
        if self.return_type != other.return_type || self.param_types.len() != other.param_types.len() {
            return false;
        }
        let mut i: usize = 0;
        while i < self.param_types.len()
            invariant
                i <= self.param_types.len(),
                self.param_types.len() == other.param_types.len(),
                forall|j: int| 0 <= j < i ==> self.param_types@[j] == other.param_types@[j],
            decreases self.param_types.len() - i,
        {
            if self.param_types[i] != other.param_types[i] {
                return false;
            }
            i = i + 1;
        }
        assert(self.param_types@ =~= other.param_types@);
        true
    }

    /// A copy of the function type.
    pub fn duplicate(&self) -> (r: FuncType)
        ensures r.return_type == self.return_type, r.param_types@ == self.param_types@,
    {
        let mut params: Vec<DataType> = Vec::new();
        let mut i: usize = 0;
        while i < self.param_types.len()
            invariant
                i <= self.param_types.len(),
                params@ == self.param_types@.subrange(0, i as int),
            decreases self.param_types.len() - i,
        {
            params.push(self.param_types[i]);
            i = i + 1;
        }
        assert(params@ =~= self.param_types@);
        FuncType { return_type: self.return_type, param_types: params }
    }
}

#[derive(Debug, Clone, Copy, PartialEq, Eq, Structural)]
pub enum Linkage {
    Internal,
    External,
}

#[derive(Debug, Clone, Copy, PartialEq, Eq, Structural)]
pub enum StorageClass {
    Static,
    Extern,
    Unspecified,
}

#[derive(Debug, Clone, Copy, PartialEq, Eq, Structural)]
pub enum InitVal {
    Const(Constant),
    Tentative,
    Absent,
}

#[derive(Debug, Clone, Copy, PartialEq, Eq, Hash, Structural)]
pub enum Constant {
    Int(i32),
    Long(i64),
}

impl Constant {
    /// The number the constant stands for.
    pub open spec fn int_value(self) -> int {
        match self {
            Constant::Int(v) => v as int,
            Constant::Long(v) => v as int,
        }
    }

    pub open spec fn spec_value(self) -> i64 {
        match self {
            Constant::Int(v) => v as i64,
            Constant::Long(v) => v,
        }
    }

    pub open spec fn spec_data_type(self) -> DataType {
        match self {
            Constant::Int(_) => DataType::Int,
            Constant::Long(_) => DataType::Long,
        }
    }

    pub open spec fn spec_is_zero(self) -> bool {
        match self {
            Constant::Int(v) => v == 0,
            Constant::Long(v) => v == 0,
        }
    }

    pub open spec fn spec_neg(self) -> Constant {
        match self {
            Constant::Int(v) => Constant::Int(vstd::wrapping::i32_specs::wrapping_sub(0, v)),
            Constant::Long(v) => Constant::Long(vstd::wrapping::i64_specs::wrapping_sub(0, v)),
        }
    }

    pub open spec fn spec_complement(self) -> Constant {
        match self {
            Constant::Int(v) => Constant::Int(!v),
            Constant::Long(v) => Constant::Long(!v),
        }
    }

    pub open spec fn spec_not(self) -> Constant {
        match self {
            Constant::Int(v) => Constant::Int(if v == 0 { 1 } else { 0 }),
            Constant::Long(v) => Constant::Long(if v == 0 { 1 } else { 0 }),
        }
    }

    pub fn value(&self) -> (r: i64)
        ensures r == self.spec_value(),
    {
        match self {
            Constant::Int(value) => *value as i64,
            Constant::Long(value) => *value,
        }
    }

    pub fn data_type(&self) -> (r: DataType)
        ensures r == self.spec_data_type(),
    {
        match self {
            Constant::Int(_) => DataType::Int,
            Constant::Long(_) => DataType::Long,
        }
    }

    pub fn is_zero(&self) -> (r: bool)
        ensures r == self.spec_is_zero(),
    {
        match self {
            Constant::Int(value) => *value == 0,
            Constant::Long(value) => *value == 0,
        }
    }

    /// Two's complement negation, wrapping on the most negative value.
    pub fn neg(&self) -> (r: Self)
        ensures r == self.spec_neg(),
    {
        match self {
            Constant::Int(value) => Constant::Int(0i32.wrapping_sub(*value)),
            Constant::Long(value) => Constant::Long(0i64.wrapping_sub(*value)),
        }
    }

    /// Bitwise complement.
    pub fn complement(&self) -> (r: Self)
        ensures r == self.spec_complement(),
    {
        match self {
            Constant::Int(value) => Constant::Int(!*value),
            Constant::Long(value) => Constant::Long(!*value),
        }
    }


    /// Whether two constants have the same type, as arithmetic on them needs.
    pub open spec fn same_type(self, other: Constant) -> bool {
        self.spec_data_type() == other.spec_data_type()
    }

    pub open spec fn spec_plus(self, other: Constant) -> Constant {
        match (self, other) {
            (Constant::Int(a), Constant::Int(b)) => Constant::Int(vstd::wrapping::i32_specs::wrapping_add(a, b)),
            (Constant::Long(a), Constant::Long(b)) => Constant::Long(vstd::wrapping::i64_specs::wrapping_add(a, b)),
            _ => self,
        }
    }

    pub open spec fn spec_minus(self, other: Constant) -> Constant {
        match (self, other) {
            (Constant::Int(a), Constant::Int(b)) => Constant::Int(vstd::wrapping::i32_specs::wrapping_sub(a, b)),
            (Constant::Long(a), Constant::Long(b)) => Constant::Long(vstd::wrapping::i64_specs::wrapping_sub(a, b)),
            _ => self,
        }
    }

    pub open spec fn spec_times(self, other: Constant) -> Constant {
        match (self, other) {
            (Constant::Int(a), Constant::Int(b)) => Constant::Int(vstd::wrapping::i32_specs::wrapping_mul(a, b)),
            (Constant::Long(a), Constant::Long(b)) => Constant::Long(vstd::wrapping::i64_specs::wrapping_mul(a, b)),
            _ => self,
        }
    }

    /// The quotient rounded toward zero; the most negative value divided by
    /// -1 wraps to itself.
    pub open spec fn spec_quotient(self, other: Constant) -> Constant {
        match (self, other) {
            (Constant::Int(a), Constant::Int(b)) =>
                Constant::Int(if a == i32::MIN && b == -1 { i32::MIN } else { trunc_div(a as int, b as int) as i32 }),
            (Constant::Long(a), Constant::Long(b)) =>
                Constant::Long(if a == i64::MIN && b == -1 { i64::MIN } else { trunc_div(a as int, b as int) as i64 }),
            _ => self,
        }
    }

    /// The remainder with the sign of the dividend; 0 where the quotient wraps.
    pub open spec fn spec_remainder(self, other: Constant) -> Constant {
        match (self, other) {
            (Constant::Int(a), Constant::Int(b)) =>
                Constant::Int(if a == i32::MIN && b == -1 { 0 } else { trunc_rem(a as int, b as int) as i32 }),
            (Constant::Long(a), Constant::Long(b)) =>
                Constant::Long(if a == i64::MIN && b == -1 { 0 } else { trunc_rem(a as int, b as int) as i64 }),
            _ => self,
        }
    }

    /// `self < other`; constants of different types are not ordered.
    pub open spec fn spec_lt(self, other: Constant) -> bool {
        match (self, other) {
            (Constant::Int(a), Constant::Int(b)) => a < b,
            (Constant::Long(a), Constant::Long(b)) => a < b,
            _ => false,
        }
    }

    pub open spec fn spec_le(self, other: Constant) -> bool {
        match (self, other) {
            (Constant::Int(a), Constant::Int(b)) => a <= b,
            (Constant::Long(a), Constant::Long(b)) => a <= b,
            _ => false,
        }
    }

    pub fn plus(&self, other: &Constant) -> (r: Constant)
        requires self.same_type(*other),
        ensures r == self.spec_plus(*other),
    {
        match (self, other) {
            (Constant::Int(a), Constant::Int(b)) => Constant::Int(a.wrapping_add(*b)),
            (Constant::Long(a), Constant::Long(b)) => Constant::Long(a.wrapping_add(*b)),
            _ => *self,
        }
    }

    pub fn minus(&self, other: &Constant) -> (r: Constant)
        requires self.same_type(*other),
        ensures r == self.spec_minus(*other),
    {
        match (self, other) {
            (Constant::Int(a), Constant::Int(b)) => Constant::Int(a.wrapping_sub(*b)),
            (Constant::Long(a), Constant::Long(b)) => Constant::Long(a.wrapping_sub(*b)),
            _ => *self,
        }
    }

    pub fn times(&self, other: &Constant) -> (r: Constant)
        requires self.same_type(*other),
        ensures r == self.spec_times(*other),
    {
        match (self, other) {
            (Constant::Int(a), Constant::Int(b)) => Constant::Int(a.wrapping_mul(*b)),
            (Constant::Long(a), Constant::Long(b)) => Constant::Long(a.wrapping_mul(*b)),
            _ => *self,
        }
    }

    pub fn quotient(&self, other: &Constant) -> (r: Constant)
        requires self.same_type(*other), !other.spec_is_zero(),
        ensures r == self.spec_quotient(*other),
    {
        match (self, other) {
            (Constant::Int(a), Constant::Int(b)) => {
                if *a == i32::MIN && *b == -1 {
                    return Constant::Int(i32::MIN);
                }
                let (q, _) = div_toward_zero(*a as i128, *b as i128);
                Constant::Int(q as i32)
            },
            (Constant::Long(a), Constant::Long(b)) => {
                if *a == i64::MIN && *b == -1 {
                    return Constant::Long(i64::MIN);
                }
                let (q, _) = div_toward_zero(*a as i128, *b as i128);
                Constant::Long(q as i64)
            },
            _ => *self,
        }
    }

    pub fn remainder(&self, other: &Constant) -> (r: Constant)
        requires self.same_type(*other), !other.spec_is_zero(),
        ensures r == self.spec_remainder(*other),
    {
        match (self, other) {
            (Constant::Int(a), Constant::Int(b)) => {
                if *a == i32::MIN && *b == -1 {
                    return Constant::Int(0);
                }
                let (_, m) = div_toward_zero(*a as i128, *b as i128);
                Constant::Int(m as i32)
            },
            (Constant::Long(a), Constant::Long(b)) => {
                if *a == i64::MIN && *b == -1 {
                    return Constant::Long(0);
                }
                let (_, m) = div_toward_zero(*a as i128, *b as i128);
                Constant::Long(m as i64)
            },
            _ => *self,
        }
    }

    pub fn lt(&self, other: &Constant) -> (r: bool)
        ensures r == self.spec_lt(*other),
    {
        match (self, other) {
            (Constant::Int(a), Constant::Int(b)) => *a < *b,
            (Constant::Long(a), Constant::Long(b)) => *a < *b,
            _ => false,
        }
    }

    pub fn le(&self, other: &Constant) -> (r: bool)
        ensures r == self.spec_le(*other),
    {
        match (self, other) {
            (Constant::Int(a), Constant::Int(b)) => *a <= *b,
            (Constant::Long(a), Constant::Long(b)) => *a <= *b,
            _ => false,
        }
    }

    /// Whether two constants are the same value of the same type.
    pub fn equals(&self, other: &Constant) -> (r: bool)
        ensures r == (*self == *other),
    {
        match (self, other) {
            (Constant::Int(a), Constant::Int(b)) => *a == *b,
            (Constant::Long(a), Constant::Long(b)) => *a == *b,
            _ => false,
        }
    }

    /// The constant converted to a sized type: widened, or truncated to its low 32 bits.
    pub open spec fn spec_convert(self, t: DataType) -> Constant {
        match (t, self) {
            (DataType::Long, Constant::Int(v)) => Constant::Long(v as i64),
            (DataType::Int, Constant::Long(v)) => Constant::Int(v as i32),
            _ => self,
        }
    }

    pub fn convert(&self, t: DataType) -> (r: Self)
        ensures r == self.spec_convert(t),
    {
        match (t, self) {
            (DataType::Long, Constant::Int(v)) => Constant::Long(*v as i64),
            (DataType::Int, Constant::Long(v)) => Constant::Int(*v as i32),
            _ => *self,
        }
    }

    /// Logical negation: 1 for zero, 0 otherwise, in the same type.
    pub fn not(&self) -> (r: Self)
        ensures r == self.spec_not(),
    {
        match self {
            Constant::Int(value) => Constant::Int(if *value == 0 { 1 } else { 0 }),
            Constant::Long(value) => Constant::Long(if *value == 0 { 1 } else { 0 }),
        }
    }
}


/// Whether a value can be held by a constant of type `t`.
pub open spec fn fits(v: int, t: DataType) -> bool {
    match t {
        DataType::Int => -0x8000_0000 <= v < 0x8000_0000,
        DataType::Long => -0x8000_0000_0000_0000 <= v < 0x8000_0000_0000_0000,
        _ => false,
    }
}

/// Converting a constant to a sized type gives a constant of that type with
/// the same value whenever the type holds it: widening an `int` keeps its
/// value (sign extension), and so does any conversion to the same type or a
/// narrowing of a `long` that fits an `int`.
pub proof fn lemma_convert_keeps_value(c: Constant, t: DataType)
    requires t is Int || t is Long,
    ensures
        c.spec_convert(t).spec_data_type() == t,
        fits(c.int_value(), t) ==> c.spec_convert(t).int_value() == c.int_value(),
        t is Long ==> c.spec_convert(t).int_value() == c.int_value(),
{
}


/// The common type of two sized types is one of them, the same whichever
/// comes first, and holds every value of both: the wider of the two.
pub proof fn lemma_common_type(a: DataType, b: DataType)
    requires a is Int || a is Long, b is Int || b is Long,
    ensures
        a.spec_common(b) == b.spec_common(a),
        a.spec_common(b) matches Some(t) && (t == a || t == b)
            && forall|v: int| (fits(v, a) || fits(v, b)) ==> #[trigger] fits(v, t),
{
}

} // verus!
