use vstd::prelude::*;
use std::cmp::Ordering;

verus! {

/// The declared type of a column.
#[derive(Debug, Clone, Copy, PartialEq, Eq, Structural)]
pub enum ColumnType {
    Integer,
    Float,
    Text,
    Foreign,
}

/// A value stored in a row or handed to a query.
///
/// A float is held as its IEEE-754 binary64 bit pattern (`f64::to_bits`), so that
/// rows can be stored, compared and checked without floating-point arithmetic.
#[derive(Debug, Clone)]
pub enum Value {
    Null,
    Integer(i64),
    Float(u64),
    Text(String),
    Foreign(i64),
}

impl Value {
    /// The column type that this value belongs to; `None` for `Null`.
    pub open spec fn type_of(self) -> Option<ColumnType> {
        match self {
            Value::Null => None,
            Value::Integer(_) => Some(ColumnType::Integer),
            Value::Float(_) => Some(ColumnType::Float),
            Value::Text(_) => Some(ColumnType::Text),
            Value::Foreign(_) => Some(ColumnType::Foreign),
        }
    }

    /// A value fits a column of type `t` when it is `Null` or of that type.
    pub open spec fn fits(self, t: ColumnType) -> bool {
        self is Null || self.type_of() == Some(t)
    }

    pub fn value_type(&self) -> (r: Option<ColumnType>)
        ensures
            r == self.type_of(),
    {
        match self {
            Value::Null => None,
            Value::Integer(_) => Some(ColumnType::Integer),
            Value::Float(_) => Some(ColumnType::Float),
            Value::Text(_) => Some(ColumnType::Text),
            Value::Foreign(_) => Some(ColumnType::Foreign),
        }
    }

    /// A copy of the value that Verus knows to be equal to it.
    pub fn duplicate(&self) -> (r: Value)
        ensures
            r == *self,
    {
        match self {
            Value::Null => Value::Null,
            Value::Integer(i) => Value::Integer(*i),
            Value::Float(f) => Value::Float(*f),
            Value::Text(s) => Value::Text(s.clone()),
            Value::Foreign(v) => Value::Foreign(*v),
        }
    }
}

/// Copies a sequence of values element for element.
pub fn duplicate_values(vals: &Vec<Value>) -> (r: Vec<Value>)
    ensures
        r@ == vals@,
{
    let mut r: Vec<Value> = Vec::new();
    let mut i: usize = 0;
    while i < vals.len()
        invariant
            i <= vals@.len(),
            r@ == vals@.subrange(0, i as int),
        decreases vals@.len() - i,
    {
        let v = vals[i].duplicate();
        r.push(v);
        i = i + 1;
        assert(r@ =~= vals@.subrange(0, i as int));
    }
    assert(r@ =~= vals@);
    r
}

pub const SIGN_MASK: u64 = 0x8000_0000_0000_0000;

pub const MAGNITUDE_MASK: u64 = 0x7fff_ffff_ffff_ffff;

pub const INFINITY_BITS: u64 = 0x7ff0_0000_0000_0000;

/// A binary64 bit pattern is a NaN when its exponent is all ones and its
/// mantissa is not zero.
pub open spec fn float_is_nan(bits: u64) -> bool {
    (bits & MAGNITUDE_MASK) > INFINITY_BITS
}

/// The position of a non-NaN binary64 value on the number line: sign and
/// magnitude turned into one integer, with both zeros at 0.
pub open spec fn float_rank(bits: u64) -> int {
    if bits & SIGN_MASK != 0 {
        -((bits & MAGNITUDE_MASK) as int)
    } else {
        (bits & MAGNITUDE_MASK) as int
    }
}

/// IEEE-754 comparison of two binary64 bit patterns: `None` when either is NaN.
pub open spec fn float_order(a: u64, b: u64) -> Option<Ordering> {
    if float_is_nan(a) || float_is_nan(b) {
        None
    } else if float_rank(a) < float_rank(b) {
        Some(Ordering::Less)
    } else if float_rank(a) > float_rank(b) {
        Some(Ordering::Greater)
    } else {
        Some(Ordering::Equal)
    }
}

/// Compares two floats given by their bit patterns as `f64::partial_cmp` does.
pub fn float_compare(a: u64, b: u64) -> (r: Option<Ordering>)
    ensures
        r == float_order(a, b),
{
    let am = a & MAGNITUDE_MASK;
    let bm = b & MAGNITUDE_MASK;
    if am > INFINITY_BITS || bm > INFINITY_BITS {
        return None;
    }
    let ar: i128 = if a & SIGN_MASK != 0 { -(am as i128) } else { am as i128 };
    let br: i128 = if b & SIGN_MASK != 0 { -(bm as i128) } else { bm as i128 };
    if ar < br {
        Some(Ordering::Less)
    } else if ar > br {
        Some(Ordering::Greater)
    } else {
        Some(Ordering::Equal)
    }
}

/// Lexicographic order of two character sequences by code point.
pub open spec fn text_order(a: Seq<char>, b: Seq<char>) -> Ordering
    decreases a.len(),
{
    if a.len() == 0 {
        if b.len() == 0 {
            Ordering::Equal
        } else {
            Ordering::Less
        }
    } else if b.len() == 0 {
        Ordering::Greater
    } else if (a[0] as u32) < (b[0] as u32) {
        Ordering::Less
    } else if (a[0] as u32) > (b[0] as u32) {
        Ordering::Greater
    } else {
        text_order(a.drop_first(), b.drop_first())
    }
}

/// Compares two strings lexicographically by code point, as `str::cmp` orders them.
pub fn text_compare(a: &String, b: &String) -> (r: Ordering)
    ensures
        r == text_order(a@, b@),
{
    let sa = a.as_str();
    let sb = b.as_str();
    let la = sa.unicode_len();
    let lb = sb.unicode_len();
    let mut i: usize = 0;
    assert(a@.subrange(0, la as int) =~= a@);
    assert(b@.subrange(0, lb as int) =~= b@);
    while i < la && i < lb
        invariant
            i <= la,
            i <= lb,
            sa@ == a@,
            sb@ == b@,
            la == a@.len(),
            lb == b@.len(),
            text_order(a@, b@) == text_order(
                a@.subrange(i as int, la as int),
                b@.subrange(i as int, lb as int),
            ),
        decreases la - i,
    {
        let ca = sa.get_char(i);
        let cb = sb.get_char(i);
        let ghost ra = a@.subrange(i as int, la as int);
        let ghost rb = b@.subrange(i as int, lb as int);
        assert(ra[0] == ca && rb[0] == cb);
        if (ca as u32) < (cb as u32) {
            return Ordering::Less;
        } else if (ca as u32) > (cb as u32) {
            return Ordering::Greater;
        }
        assert(ra.drop_first() =~= a@.subrange(i + 1, la as int));
        assert(rb.drop_first() =~= b@.subrange(i + 1, lb as int));
        i = i + 1;
    }
    assert(a@.subrange(i as int, la as int).len() == la - i);
    if la < lb {
        Ordering::Less
    } else if la > lb {
        Ordering::Greater
    } else {
        Ordering::Equal
    }
}

/// Integer order of two `i64` values.
pub fn integer_compare(a: i64, b: i64) -> (r: Ordering)
    ensures
        r == (if a < b {
            Ordering::Less
        } else if a > b {
            Ordering::Greater
        } else {
            Ordering::Equal
        }),
{
    if a < b {
        Ordering::Less
    } else if a > b {
        Ordering::Greater
    } else {
        Ordering::Equal
    }
}

} // verus!
