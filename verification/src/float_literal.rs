//! Floating-point numbers, held as the literal that denotes them.

use crate::text::{
    check_float_literal, chars_to_string, decimal_text, int_decimal, is_float_literal,
    lemma_int_decimal_is_float_literal, str_chars,
};
use vstd::prelude::*;

verus! {

/// A 64-bit floating-point number, held as a literal that denotes it. The
/// number itself is what the literal rounds to in IEEE 754 double precision.
#[derive(Debug)]
pub struct FloatLiteral {
    text: String,
}

impl FloatLiteral {
    #[verifier::type_invariant]
    spec fn well_formed(self) -> bool {
        is_float_literal(self.text@)
    }

    /// The characters of the literal.
    pub closed spec fn view(self) -> Seq<char> {
        self.text@
    }

    /// Takes `text` as a literal, if it is one.
    pub fn parse(text: &str) -> (r: Option<FloatLiteral>)
        ensures
            match r {
                Some(f) => is_float_literal(text@) && f@ == text@,
                None => !is_float_literal(text@),
            },
    {
        let chars = str_chars(text);
        if check_float_literal(&chars) {
            Some(FloatLiteral { text: chars_to_string(&chars) })
        } else {
            None
        }
    }

    /// The literal of a whole number: its decimal text, which denotes the
    /// floating-point number nearest to it.
    pub fn from_int(n: i64) -> (r: FloatLiteral)
        ensures
            r@ == int_decimal(n as int),
    {
        proof {
            lemma_int_decimal_is_float_literal(n as int);
        }
        let digits = decimal_text(n);
        FloatLiteral { text: chars_to_string(&digits) }
    }

    /// The literal as text.
    pub fn as_str(&self) -> (s: &str)
        ensures
            s@ == self@,
            is_float_literal(s@),
    {
        proof {
            use_type_invariant(self);
        }
        self.text.as_str()
    }

}

impl Clone for FloatLiteral {
    fn clone(&self) -> (r: Self)
        ensures
            r@ == self@,
    {
        proof {
            use_type_invariant(self);
        }
        FloatLiteral { text: self.text.clone() }
    }
}

} // verus!
