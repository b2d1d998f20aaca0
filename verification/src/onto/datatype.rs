//! Value datatypes of the object model, and language tags.

use vstd::prelude::*;
use crate::util::str_eq;

verus! {

/// The primitive datatypes a stored value can carry.
#[derive(Eq, PartialEq, Structural, Debug, Clone)]
pub enum DataType {
    Uri,
    String,
    Integer,
    Datetime,
    Decimal,
    Boolean,
    Binary,
}

/// The datatype named by a type name, if any.
pub open spec fn spec_datatype_from_str(l: Seq<char>) -> Option<DataType> {
    if l == "Uri"@ {
        Some(DataType::Uri)
    } else if l == "String"@ {
        Some(DataType::String)
    } else if l == "Integer"@ {
        Some(DataType::Integer)
    } else if l == "Datetime"@ {
        Some(DataType::Datetime)
    } else if l == "Decimal"@ {
        Some(DataType::Decimal)
    } else if l == "Boolean"@ {
        Some(DataType::Boolean)
    } else if l == "Binary"@ {
        Some(DataType::Binary)
    } else {
        None
    }
}

/// The datatype named by a type code, if any.
pub open spec fn spec_datatype_from_u64(l: u64) -> Option<DataType> {
    if l == 1 {
        Some(DataType::Uri)
    } else if l == 2 {
        Some(DataType::String)
    } else if l == 4 {
        Some(DataType::Integer)
    } else if l == 8 {
        Some(DataType::Datetime)
    } else if l == 32 {
        Some(DataType::Decimal)
    } else if l == 64 {
        Some(DataType::Boolean)
    } else if l == 128 {
        Some(DataType::Binary)
    } else {
        None
    }
}

impl DataType {
    /// Reads a datatype from its name.
    pub fn new_from_str(l: &str) -> (r: Option<DataType>)
        ensures
            r == spec_datatype_from_str(l@),
    {
        proof {
            reveal_strlit("Uri");
            reveal_strlit("String");
            reveal_strlit("Integer");
            reveal_strlit("Datetime");
            reveal_strlit("Decimal");
            reveal_strlit("Boolean");
            reveal_strlit("Binary");
            assert("Uri"@.len() == 3);
            assert("String"@.len() == 6);
            assert("Integer"@.len() == 7);
            assert("Datetime"@.len() == 8);
            assert("Decimal"@.len() == 7);
            assert("Boolean"@.len() == 7);
            assert("Binary"@.len() == 6);
            assert("Integer"@[0] == 'I');
            assert("Decimal"@[0] == 'D');
            assert("Boolean"@[0] == 'B');
            assert("String"@[0] == 'S');
            assert("Binary"@[0] == 'B');
            assert("Binary"@[1] == 'i');
            assert("Boolean"@[1] == 'o');
        }
        if str_eq(l, "Uri") {
            Some(DataType::Uri)
        } else if str_eq(l, "String") {
            Some(DataType::String)
        } else if str_eq(l, "Integer") {
            Some(DataType::Integer)
        } else if str_eq(l, "Datetime") {
            Some(DataType::Datetime)
        } else if str_eq(l, "Decimal") {
            Some(DataType::Decimal)
        } else if str_eq(l, "Boolean") {
            Some(DataType::Boolean)
        } else if str_eq(l, "Binary") {
            Some(DataType::Binary)
        } else {
            None
        }
    }

    /// Reads a datatype from its type code.
    pub fn new_from_u64(l: u64) -> (r: Option<DataType>)
        ensures
            r == spec_datatype_from_u64(l),
    {
        match l {
            1 => Some(DataType::Uri),
            2 => Some(DataType::String),
            4 => Some(DataType::Integer),
            8 => Some(DataType::Datetime),
            32 => Some(DataType::Decimal),
            64 => Some(DataType::Boolean),
            128 => Some(DataType::Binary),
            _ => None,
        }
    }
}

/// What an uppercased language name stands for; the result depends on
/// the characters alone.
pub uninterp spec fn upper_of(s: Seq<char>) -> Seq<char>;

/// Relies on `str::to_uppercase`: the uppercase form of a string,
/// a function of its characters alone.
#[verifier::external_body]
fn to_uppercase(s: &str) -> (r: String)
    ensures
        r@ == upper_of(s@),
{
    s.to_uppercase()
}

/// A language tag: a named language, or none.
#[derive(Eq, PartialEq, Debug, Clone)]
pub struct Lang {
    pub data: Option<String>,
}

impl Lang {
    /// The absent language.
    pub fn none() -> (r: Lang)
        ensures
            r.data is None,
    {
        Lang { data: None }
    }

    /// True when a language is set.
    pub fn is_some(&self) -> (r: bool)
        ensures
            r == (self.data is Some),
    {
        self.data.is_some()
    }

    /// Reads a language from a name: the uppercased name, unless it
    /// spells the absent language.
    pub fn new_from_str(l: &str) -> (r: Lang)
        ensures
            upper_of(l@) == "NONE"@ || upper_of(l@) == "UNDEFINED"@ ==> r.data is None,
            upper_of(l@) != "NONE"@ && upper_of(l@) != "UNDEFINED"@ ==> (r.data matches Some(v)
                && v@ == upper_of(l@)),
    {
        let lu = to_uppercase(l);
        let is_none_name = str_eq(lu.as_str(), "NONE") || str_eq(lu.as_str(), "UNDEFINED");
        if is_none_name {
            Lang { data: None }
        } else {
            Lang { data: Some(lu) }
        }
    }

    /// Reads a language from its numeric code.
    pub fn new_from_i64(l: i64) -> (r: Lang)
        ensures
            l == 1 ==> (r.data matches Some(v) && v@ == "RU"@),
            l == 2 ==> (r.data matches Some(v) && v@ == "EN"@),
            l != 1 && l != 2 ==> r.data is None,
    {
        match l {
            1 => Lang { data: Some("RU".to_owned()) },
            2 => Lang { data: Some("EN".to_owned()) },
            _ => Lang { data: None },
        }
    }

    /// The language's name, with the absent language spelled `NONE`.
    pub fn to_string(&self) -> (r: &str)
        ensures
            match self.data {
                Some(v) => r@ == v@,
                None => r@ == "NONE"@,
            },
    {
        match &self.data {
            Some(v) => v.as_str(),
            None => "NONE",
        }
    }
}

/// Ten to a small power.
pub open spec fn spec_pow10(e: int) -> int
    decreases e,
{
    if e <= 0 {
        1
    } else {
        spec_pow10(e - 1) * 10
    }
}

/// Turns a mantissa and exponent into a scaled integer: a positive
/// exponent multiplies into the mantissa, a negative one becomes the
/// scale.
pub fn exponent_to_scale(m: &i64, e: &i64) -> (r: (i64, u32))
    requires
        *e < 0 ==> *e >= -4294967295,
        *e > 0 ==> *e <= 18 && -spec_pow10(18 - *e) <= *m <= spec_pow10(18 - *e),
    ensures
        r.1 == (if *e < 0 {
            (-*e) as u32
        } else {
            0u32
        }),
        r.0 == (if *e > 0 {
            *m * spec_pow10(*e as int)
        } else {
            *m as int
        }),
{
    let scale: u32 = if *e < 0 {
        (-(*e)) as u32
    } else {
        0
    };
    let num: i64 = if *e > 0 {
        let mut acc: i64 = *m;
        let mut k: i64 = 0;
        proof {
            reveal_with_fuel(spec_pow10, 20);
            assert(spec_pow10(18) == 1000000000000000000);
            lemma_pow10_bounds(18 - *e as int);
            assert(spec_pow10(0) == 1);
            assert((*m) * 1 == *m) by (nonlinear_arith);
        }
        while k < *e
            invariant
                0 <= k <= *e,
                0 < *e <= 18,
                acc == *m * spec_pow10(k as int),
                -spec_pow10(18 - *e + k) <= acc <= spec_pow10(18 - *e + k),
                spec_pow10(18) == 1000000000000000000,
                -spec_pow10(18 - *e as int) <= *m <= spec_pow10(18 - *e as int),
            decreases *e - k,
        {
            proof {
                lemma_pow10_mono(18 - *e as int + k as int, 17);
                assert(spec_pow10(18) == spec_pow10(17) * 10);
                assert(spec_pow10(18 - *e + k + 1) == spec_pow10(18 - *e + k) * 10);
                assert(spec_pow10(k as int + 1) == spec_pow10(k as int) * 10);
                assert((*m) * (spec_pow10(k as int) * 10) == ((*m) * spec_pow10(k as int)) * 10)
                    by (nonlinear_arith);
            }
            acc = acc * 10;
            k = k + 1;
        }
        acc
    } else {
        *m
    };
    (num, scale)
}

/// Powers of ten grow with the exponent.
proof fn lemma_pow10_mono(a: int, b: int)
    requires
        a <= b,
    ensures
        spec_pow10(a) <= spec_pow10(b),
        spec_pow10(a) >= 1,
    decreases b - a,
{
    if a < b {
        lemma_pow10_mono(a, b - 1);
    } else {
        lemma_pow10_bounds(a);
    }
}

/// A power of ten is at least one.
proof fn lemma_pow10_bounds(a: int)
    ensures
        spec_pow10(a) >= 1,
    decreases (if a > 0 {
        a
    } else {
        0
    }),
{
    if a > 0 {
        lemma_pow10_bounds(a - 1);
    }
}

} // verus!
