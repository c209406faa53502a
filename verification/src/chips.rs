//! Chip amounts.
use vstd::prelude::*;
use vstd::std_specs::convert::FromSpecImpl;
use vstd::std_specs::ops::AddSpecImpl;
use vstd::std_specs::ops::SubSpecImpl;

verus! {

/// An amount of chips.
#[derive(Clone, Copy, Debug, PartialEq, Eq, Hash, PartialOrd, Ord, Structural)]
pub struct Chips(pub u64);

impl Chips {
    /// No chips.
    pub fn zero() -> (r: Chips)
        ensures
            r == Chips(0),
    {
        Chips(0)
    }

    /// An amount of chips.
    pub fn new(amount: u64) -> (r: Chips)
        ensures
            r == Chips(amount),
    {
        Chips(amount)
    }

    /// The amount as a number.
    pub fn value(self) -> (r: u64)
        ensures
            r == self.0,
    {
        self.0
    }

    /// Whether the amount is zero.
    pub fn is_zero(self) -> (r: bool)
        ensures
            r == (self.0 == 0),
    {
        self.0 == 0
    }

    /// The difference of two amounts, or zero where the second is the larger.
    pub fn saturating_sub(self, other: Chips) -> (r: Chips)
        ensures
            r.0 == if self.0 >= other.0 {
                self.0 - other.0
            } else {
                0
            },
    {
        Chips(self.0.saturating_sub(other.0))
    }

    /// The smaller of two amounts.
    pub fn min(self, other: Chips) -> (r: Chips)
        ensures
            r.0 == if self.0 < other.0 {
                self.0
            } else {
                other.0
            },
            r == self || r == other,
    {
        if self.0 < other.0 {
            self
        } else {
            other
        }
    }

    /// The larger of two amounts.
    pub fn max(self, other: Chips) -> (r: Chips)
        ensures
            r.0 == if self.0 > other.0 {
                self.0
            } else {
                other.0
            },
            r == self || r == other,
    {
        if self.0 > other.0 {
            self
        } else {
            other
        }
    }

    /// The digits of a number, as characters.
    pub open spec fn digits(n: nat) -> Seq<char>
        decreases n,
    {
        if n < 10 {
            seq![Chips::digit(n)]
        } else {
            Chips::digits(n / 10).push(Chips::digit(n % 10))
        }
    }

    /// The character of a decimal digit.
    pub open spec fn digit(d: nat) -> char {
        if d == 0 {
            '0'
        } else if d == 1 {
            '1'
        } else if d == 2 {
            '2'
        } else if d == 3 {
            '3'
        } else if d == 4 {
            '4'
        } else if d == 5 {
            '5'
        } else if d == 6 {
            '6'
        } else if d == 7 {
            '7'
        } else if d == 8 {
            '8'
        } else {
            '9'
        }
    }

    /// The amount in decimal digits.
    pub fn to_string(&self) -> (r: String)
        ensures
            r@ == Chips::digits(self.0 as nat),
    {
        decimal_text(self.0)
    }
}

/// The text of one decimal digit.
fn digit_text(d: u64) -> (r: &'static str)
    requires
        d < 10,
    ensures
        r@ == seq![Chips::digit(d as nat)],
{
    let text = if d == 0 {
        proof {
            reveal_strlit("0");
        }
        "0"
    } else if d == 1 {
        proof {
            reveal_strlit("1");
        }
        "1"
    } else if d == 2 {
        proof {
            reveal_strlit("2");
        }
        "2"
    } else if d == 3 {
        proof {
            reveal_strlit("3");
        }
        "3"
    } else if d == 4 {
        proof {
            reveal_strlit("4");
        }
        "4"
    } else if d == 5 {
        proof {
            reveal_strlit("5");
        }
        "5"
    } else if d == 6 {
        proof {
            reveal_strlit("6");
        }
        "6"
    } else if d == 7 {
        proof {
            reveal_strlit("7");
        }
        "7"
    } else if d == 8 {
        proof {
            reveal_strlit("8");
        }
        "8"
    } else {
        proof {
            reveal_strlit("9");
        }
        "9"
    };
    assert(text@ =~= seq![Chips::digit(d as nat)]);
    text
}

/// A number in decimal digits.
pub fn decimal_text(n: u64) -> (r: String)
    ensures
        r@ == Chips::digits(n as nat),
    decreases n,
{
    if n < 10 {
        String::from_str(digit_text(n))
    } else {
        let mut text = decimal_text(n / 10);
        text.append(digit_text(n % 10));
        assert(text@ =~= Chips::digits(n as nat));
        text
    }
}

impl core::ops::Add for Chips {
    type Output = Chips;

    fn add(self, other: Chips) -> (r: Chips) {
        Chips(self.0 + other.0)
    }
}

impl AddSpecImpl for Chips {
    open spec fn obeys_add_spec() -> bool {
        true
    }

    open spec fn add_req(self, other: Chips) -> bool {
        self.0 + other.0 <= u64::MAX
    }

    open spec fn add_spec(self, other: Chips) -> Chips {
        Chips((self.0 + other.0) as u64)
    }
}

impl core::ops::Sub for Chips {
    type Output = Chips;

    fn sub(self, other: Chips) -> (r: Chips) {
        Chips(self.0 - other.0)
    }
}

impl SubSpecImpl for Chips {
    open spec fn obeys_sub_spec() -> bool {
        true
    }

    open spec fn sub_req(self, other: Chips) -> bool {
        self.0 >= other.0
    }

    open spec fn sub_spec(self, other: Chips) -> Chips {
        Chips((self.0 - other.0) as u64)
    }
}

impl From<u64> for Chips {
    fn from(amount: u64) -> (r: Chips) {
        Chips(amount)
    }
}

impl FromSpecImpl<u64> for Chips {
    open spec fn obeys_from_spec() -> bool {
        true
    }

    open spec fn from_spec(amount: u64) -> Chips {
        Chips(amount)
    }
}

impl From<u32> for Chips {
    fn from(amount: u32) -> (r: Chips) {
        Chips(amount as u64)
    }
}

impl FromSpecImpl<u32> for Chips {
    open spec fn obeys_from_spec() -> bool {
        true
    }

    open spec fn from_spec(amount: u32) -> Chips {
        Chips(amount as u64)
    }
}

impl From<Chips> for u64 {
    fn from(chips: Chips) -> (r: u64) {
        chips.0
    }
}

impl FromSpecImpl<Chips> for u64 {
    open spec fn obeys_from_spec() -> bool {
        true
    }

    open spec fn from_spec(chips: Chips) -> u64 {
        chips.0
    }
}

impl core::ops::AddAssign for Chips {
    fn add_assign(&mut self, other: Chips)
        requires
            old(self).0 + other.0 <= u64::MAX,
        ensures
            final(self).0 == old(self).0 + other.0,
    {
        self.0 = self.0 + other.0;
    }
}

impl core::ops::SubAssign for Chips {
    fn sub_assign(&mut self, other: Chips)
        requires
            old(self).0 >= other.0,
        ensures
            final(self).0 == old(self).0 - other.0,
    {
        self.0 = self.0 - other.0;
    }
}

} // verus!
