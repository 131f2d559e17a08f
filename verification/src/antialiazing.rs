//! The supersampling factor of a render: a power of four, so that the
//! supersampled picture shrinks back by a whole factor along both axes.

use crate::text::{chars_of, parse_u32, parsed_u32, trim_bounds, trimmed};
use vstd::arithmetic::power::{lemma_pow0, lemma_pow_positive, pow};
use vstd::prelude::*;

verus! {

/// Whether `n` is `4^k` for some natural number `k`.
pub open spec fn power_of_four(n: nat) -> bool {
    exists|k: nat| n == pow(4, k)
}

/// The same property, by repeated division: the form the code follows.
pub open spec fn quarters_to_one(n: nat) -> bool
    decreases n,
{
    n == 1 || (n >= 4 && n % 4 == 0 && quarters_to_one(n / 4))
}

/// Every power of four divides down to one.
proof fn lemma_pow4_quarters(k: nat)
    ensures
        quarters_to_one(pow(4, k) as nat),
        pow(4, k) >= 1,
    decreases k,
{
    reveal(pow);
    if k == 0 {
        lemma_pow0(4);
    } else {
        lemma_pow4_quarters((k - 1) as nat);
        let p = pow(4, (k - 1) as nat);
        assert(pow(4, k) == 4 * p);
        assert((4 * p) % 4 == 0 && (4 * p) / 4 == p) by (nonlinear_arith)
            requires
                p >= 1,
        ;
    }
}

/// Whatever divides down to one is a power of four.
proof fn lemma_quarters_pow4(n: nat)
    requires
        quarters_to_one(n),
    ensures
        power_of_four(n),
    decreases n,
{
    reveal(pow);
    if n == 1 {
        lemma_pow0(4);
        assert(n == pow(4, 0));
    } else {
        lemma_quarters_pow4(n / 4);
        let k = choose|k: nat| n / 4 == pow(4, k);
        assert(pow(4, k + 1) == 4 * pow(4, k));
        assert(n == pow(4, k + 1));
    }
}

/// The two statements of "power of four" agree.
pub proof fn lemma_power_of_four_by_division(n: nat)
    ensures
        power_of_four(n) == quarters_to_one(n),
{
    if power_of_four(n) {
        let k = choose|k: nat| n == pow(4, k);
        lemma_pow4_quarters(k);
    }
    if quarters_to_one(n) {
        lemma_quarters_pow4(n);
    }
}

/// A power of four is at least one.
pub proof fn lemma_power_of_four_positive(n: nat)
    requires
        power_of_four(n),
    ensures
        n >= 1,
{
    let k = choose|k: nat| n == pow(4, k);
    lemma_pow_positive(4, k);
}

/// Tests whether `n` is a power of four: 1, 4, 16, 64 and so on. Zero is none.
pub fn is_power_of_four(n: u32) -> (r: bool)
    ensures
        r == power_of_four(n as nat),
{
    let mut m: u32 = n;
    while m >= 4 && m % 4 == 0
        invariant
            quarters_to_one(m as nat) == quarters_to_one(n as nat),
        decreases m,
    {
        m = m / 4;
    }
    proof {
        lemma_power_of_four_by_division(n as nat);
    }
    m == 1
}

/// Why a text was refused as a supersampling factor.
#[derive(Debug, Copy, Clone, PartialEq, Eq, Structural)]
pub enum AntialiazingError {
    /// The text is no 32-bit unsigned decimal number.
    InvalidNumber,
    /// The number is no power of four.
    NotPowerOfFour,
}

impl AntialiazingError {
    /// The text of the message for this error.
    pub open spec fn message_text(self) -> Seq<char> {
        match self {
            AntialiazingError::InvalidNumber => "invalid number"@,
            AntialiazingError::NotPowerOfFour => "number is not a power of 4"@,
        }
    }

    /// The message shown to the user for this error.
    pub fn message(&self) -> (text: &'static str)
        ensures
            text@ == self.message_text(),
    {
        match self {
            AntialiazingError::InvalidNumber => "invalid number",
            AntialiazingError::NotPowerOfFour => "number is not a power of 4",
        }
    }
}

/// A supersampling factor: always a power of four.
#[derive(Debug, Copy, Clone)]
pub struct Antialiazing(u32);

/// What a text stands for as a supersampling factor: the number it writes
/// once trimmed, if that number is a power of four.
pub open spec fn parsed_antialiazing(s: Seq<char>) -> Result<u32, AntialiazingError> {
    match parsed_u32(trimmed(s)) {
        None => Err(AntialiazingError::InvalidNumber),
        Some(value) => if power_of_four(value as nat) {
            Ok(value)
        } else {
            Err(AntialiazingError::NotPowerOfFour)
        },
    }
}

impl Antialiazing {
    /// The factor as a number.
    pub closed spec fn value(self) -> u32 {
        self.0
    }

    /// The invariant of the type: the factor is a power of four.
    pub open spec fn wf(self) -> bool {
        power_of_four(self.value() as nat)
    }

    /// Accepts `value` if and only if it is a power of four.
    pub fn new(value: u32) -> (r: Option<Self>)
        ensures
            r is Some <==> power_of_four(value as nat),
            r is Some ==> r->0.value() == value && r->0.wf(),
    {
        if is_power_of_four(value) {
            Some(Antialiazing(value))
        } else {
            None
        }
    }

    /// The factor as a number.
    pub fn get(&self) -> (value: u32)
        ensures
            value == self.value(),
    {
        self.0
    }

    /// Reads a supersampling factor from text: a decimal number, white space
    /// around it ignored, that is a power of four.
    pub fn parse(s: &str) -> (r: Result<Self, AntialiazingError>)
        ensures
            match parsed_antialiazing(s@) {
                Ok(value) => r is Ok && r->Ok_0.value() == value && r->Ok_0.wf(),
                Err(e) => r == Err::<Self, AntialiazingError>(e),
            },
    {
        let chars: Vec<char> = chars_of(s);
        let (from, to) = trim_bounds(&chars);
        match parse_u32(&chars, from, to) {
            None => Err(AntialiazingError::InvalidNumber),
            Some(value) => match Antialiazing::new(value) {
                Some(antialiazing) => Ok(antialiazing),
                None => Err(AntialiazingError::NotPowerOfFour),
            },
        }
    }
}

impl From<Antialiazing> for u32 {
    fn from(antialiazing: Antialiazing) -> (value: u32) {
        antialiazing.0
    }
}

impl vstd::std_specs::convert::FromSpecImpl<Antialiazing> for u32 {
    open spec fn obeys_from_spec() -> bool {
        true
    }

    open spec fn from_spec(antialiazing: Antialiazing) -> u32 {
        antialiazing.value()
    }
}

impl std::str::FromStr for Antialiazing {
    type Err = &'static str;

    /// Reads a supersampling factor as `parse` does, and reports a refusal
    /// by its message.
    fn from_str(s: &str) -> (r: Result<Self, Self::Err>)
        ensures
            match parsed_antialiazing(s@) {
                Ok(value) => r is Ok && r->Ok_0.value() == value && r->Ok_0.wf(),
                Err(e) => r is Err && r->Err_0@ == e.message_text(),
            },
    {
        match Antialiazing::parse(s) {
            Ok(antialiazing) => Ok(antialiazing),
            Err(e) => Err(e.message()),
        }
    }
}

} // verus!
