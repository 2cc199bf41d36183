//! A pocket calculator with a running total: branded, clearable, and
//! exact about Rust's truncating integer arithmetic.

use vstd::prelude::*;
use vstd::string::StringExecFns;

verus! {

/// Rust's truncating integer division: the quotient of the absolute
/// values, negated when the signs differ.
pub open spec fn trunc_div(a: int, b: int) -> int
    recommends
        b != 0,
{
    let q = (vstd::math::abs(a) / vstd::math::abs(b)) as int;
    if (a < 0) != (b < 0) {
        -q
    } else {
        q
    }
}

/// A calculator with a brand, a model, and a running total that the
/// arithmetic operations fold into.
pub struct Calculator {
    brand: String,
    model: String,
    total: i32,
}

impl Calculator {
    /// The brand text.
    pub closed spec fn brand_spec(&self) -> Seq<char> {
        self.brand@
    }

    /// The model text.
    pub closed spec fn model_spec(&self) -> Seq<char> {
        self.model@
    }

    /// The running total.
    pub closed spec fn total_spec(&self) -> int {
        self.total as int
    }

    /// A named calculator whose total starts at zero.
    pub fn new(brand: &str, model: &str) -> (r: Calculator)
        ensures
            r.brand_spec() == brand@,
            r.model_spec() == model@,
            r.total_spec() == 0,
    {
        Calculator { brand: brand.to_owned(), model: model.to_owned(), total: 0 }
    }

    /// The brand and model, presented as one line.
    pub fn display(&self) -> (r: String)
        ensures
            r@ == "Your calculator is -> "@ + self.brand_spec() + " "@ + self.model_spec(),
    {
        String::from_str("Your calculator is -> ").concat(self.brand.as_str()).concat(" ").concat(
            self.model.as_str(),
        )
    }

    /// Resets the total to zero.
    pub fn clear(&mut self)
        ensures
            final(self).total_spec() == 0,
            final(self).brand_spec() == old(self).brand_spec(),
            final(self).model_spec() == old(self).model_spec(),
    {
        self.total = 0;
    }

    /// The running total.
    pub fn get_total(&self) -> (r: i32)
        ensures
            r == self.total_spec(),
    {
        self.total
    }

    /// Adds the input to the total.
    pub fn add(&mut self, input: i32)
        requires
            i32::MIN <= old(self).total_spec() + input <= i32::MAX,
        ensures
            final(self).total_spec() == old(self).total_spec() + input,
            final(self).brand_spec() == old(self).brand_spec(),
            final(self).model_spec() == old(self).model_spec(),
    {
        self.total = self.total + input;
    }

    /// Subtracts the input from the total.
    pub fn subtract(&mut self, input: i32)
        requires
            i32::MIN <= old(self).total_spec() - input <= i32::MAX,
        ensures
            final(self).total_spec() == old(self).total_spec() - input,
            final(self).brand_spec() == old(self).brand_spec(),
            final(self).model_spec() == old(self).model_spec(),
    {
        self.total = self.total - input;
    }

    /// Multiplies the total by the input.
    pub fn multiply(&mut self, input: i32)
        requires
            i32::MIN <= old(self).total_spec() * input <= i32::MAX,
        ensures
            final(self).total_spec() == old(self).total_spec() * input,
            final(self).brand_spec() == old(self).brand_spec(),
            final(self).model_spec() == old(self).model_spec(),
    {
        self.total = self.total * input;
    }

    /// Divides the total by the input, truncating toward zero as Rust's
    /// division does; a zero divisor is rejected and leaves the total
    /// unchanged.
    pub fn divide(&mut self, input: i32) -> (r: Result<i32, &'static str>)
        requires
            !(old(self).total_spec() == i32::MIN && input == -1),
        ensures
            final(self).brand_spec() == old(self).brand_spec(),
            final(self).model_spec() == old(self).model_spec(),
            input == 0 ==> final(self).total_spec() == old(self).total_spec() && (r matches Err(m)
                && m@ == "Cannot divide by zero"@),
            input != 0 ==> final(self).total_spec() == trunc_div(old(self).total_spec(), input as int)
                && r == Ok::<i32, &'static str>(
                (trunc_div(old(self).total_spec(), input as int)) as i32,
            ),
    {
        if input == 0 {
            return Err("Cannot divide by zero");
        }
        let a = self.total;
        if input == i32::MIN {
            self.total = if a == i32::MIN {
                1
            } else {
                0
            };
            proof {
                if a != i32::MIN {
                    vstd::arithmetic::div_mod::lemma_basic_div(
                        vstd::math::abs(a as int) as int,
                        2147483648,
                    );
                }
            }
        } else if input < 0 {
            let q = a / (-input);
            proof {
                let d = -(input as int);
                if a < 0 {
                    let x = -(a as int);
                    if d >= 2 {
                        vstd::arithmetic::div_mod::lemma_div_is_ordered_by_denominator(x, 2, d);
                        vstd::arithmetic::div_mod::lemma_div_is_ordered(x, 0x80000000, 2);
                        assert(x / d <= 0x40000000);
                    } else {
                        assert(x / 1 == x);
                    }
                }
            }
            self.total = -q;
        } else {
            self.total = a / input;
        }
        Ok(self.total)
    }
}

} // verus!
