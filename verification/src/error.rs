use vstd::prelude::*;
use vstd::string::StringExecFns;

verus! {

/// Why a rule was not registered.
#[derive(Debug, PartialEq, Eq)]
pub enum GenerationError {
    /// The rule names more parameters than there are noises.
    TooManyParameters { parameters: usize, noises: usize },
    /// The rule names a parameter for which no noise is registered.
    NoiseNotFound { name: String },
}

/// The character of a decimal digit.
pub open spec fn digit(d: nat) -> char {
    if d == 0 {
        '0'
    } else if d == 1 {
        '1'
    } else if d == 2 {
        '2'
    } else if d == 3 {
        '3'
    } else if d == 4 {
        '4'
    } else if d == 5 {
        '5'
    } else if d == 6 {
        '6'
    } else if d == 7 {
        '7'
    } else if d == 8 {
        '8'
    } else {
        '9'
    }
}

/// A number written in decimal digits, without leading zeros.
pub open spec fn decimal(n: nat) -> Seq<char>
    decreases n,
{
    if n < 10 {
        seq![digit(n)]
    } else {
        decimal(n / 10).push(digit(n % 10))
    }
}

/// The text of one decimal digit.
fn digit_text(d: usize) -> (text: &'static str)
    requires
        d < 10,
    ensures
        text@ == seq![digit(d as nat)],
{
    proof {
        reveal_strlit("0");
        reveal_strlit("1");
        reveal_strlit("2");
        reveal_strlit("3");
        reveal_strlit("4");
        reveal_strlit("5");
        reveal_strlit("6");
        reveal_strlit("7");
        reveal_strlit("8");
        reveal_strlit("9");
    }
    let text = if d == 0 {
        "0"
    } else if d == 1 {
        "1"
    } else if d == 2 {
        "2"
    } else if d == 3 {
        "3"
    } else if d == 4 {
        "4"
    } else if d == 5 {
        "5"
    } else if d == 6 {
        "6"
    } else if d == 7 {
        "7"
    } else if d == 8 {
        "8"
    } else {
        "9"
    };
    assert(text@ =~= seq![digit(d as nat)]);
    text
}

/// Writes a number in decimal digits.
fn decimal_text(n: usize) -> (text: String)
    ensures
        text@ == decimal(n as nat),
    decreases n,
{
    if n < 10 {
        String::from_str(digit_text(n))
    } else {
        let mut text = decimal_text(n / 10);
        text.append(digit_text(n % 10));
        assert(text@ =~= decimal((n / 10) as nat).push(digit((n % 10) as nat)));
        text
    }
}

impl GenerationError {
    /// The sentence that `message` makes of the error.
    pub open spec fn sentence(&self) -> Seq<char> {
        match self {
            GenerationError::TooManyParameters { parameters, noises } => {
                "Too many generation parameters ("@ + decimal(*parameters as nat)
                    + ") or not enough noises ("@ + decimal(*noises as nat) + ")"@
            },
            GenerationError::NoiseNotFound { name } => {
                "Parameter named "@ + name@ + " not found"@
            },
        }
    }

    /// The error in words.
    pub fn message(&self) -> (text: String)
        ensures
            text@ == self.sentence(),
    {
        match self {
            GenerationError::TooManyParameters { parameters, noises } => {
                let mut text = String::from_str("Too many generation parameters (");
                text.append(decimal_text(*parameters).as_str());
                text.append(") or not enough noises (");
                text.append(decimal_text(*noises).as_str());
                text.append(")");
                text
            },
            GenerationError::NoiseNotFound { name } => {
                let mut text = String::from_str("Parameter named ");
                text.append(name.as_str());
                text.append(" not found");
                text
            },
        }
    }
}

} // verus!
