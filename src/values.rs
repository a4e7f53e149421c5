//! Bounded field values of a cron expression.

use core::marker::PhantomData;
use crate::parse::{name, name_at, number, number_at};
use vstd::prelude::*;

verus! {

/// The error returned when a raw integer lies outside a field's declared range.
#[derive(Debug, PartialEq, Eq)]
pub struct ValueOutOfRangeError;

/// A field value with an inclusive range `MIN..=MAX` of raw integers.
///
/// The zero-based position of a value inside its field is `raw - MIN`; this position is what
/// compiled schedules store as a bit index.
pub trait ExprValue: Sized + Copy {
    /// The smallest raw value of the field.
    spec fn min_raw() -> int;

    /// The largest raw value of the field.
    spec fn max_raw() -> int;

    /// The raw value held.
    spec fn raw(&self) -> int;

    /// The value holding `raw`.
    spec fn from_raw(raw: int) -> Self;

    /// A value in range is held as given.
    proof fn lemma_from_raw(raw: int)
        requires
            Self::min_raw() <= raw <= Self::max_raw(),
        ensures
            Self::from_raw(raw).raw() == raw,
    ;

    /// The value that the text `s` spells at position `i`, and the position after it.
    spec fn atom_at(s: Seq<u8>, i: int) -> Option<(Self, int)>;

    /// Reads the value that the text spells at position `i`.
    fn parse_atom(s: &[u8], i: usize) -> (r: Option<(Self, usize)>)
        requires
            i <= s@.len(),
        ensures
            match r {
                Some((v, j)) => Self::atom_at(s@, i as int) == Some((v, j as int)) && i < j
                    <= s@.len(),
                None => Self::atom_at(s@, i as int) is None,
            },
    ;

    /// The declared range is small and starts at 0 or 1.
    proof fn lemma_bounds()
        ensures
            0 <= Self::min_raw() <= 1,
            Self::min_raw() < Self::max_raw() < 64,
    ;

    /// The smallest value of the field.
    fn min() -> (r: Self)
        ensures
            r.raw() == Self::min_raw(),
            r == Self::from_raw(Self::min_raw()),
    ;

    /// The largest value of the field.
    fn max() -> (r: Self)
        ensures
            r.raw() == Self::max_raw(),
            r == Self::from_raw(Self::max_raw()),
    ;

    /// The raw value held.
    fn value(&self) -> (r: u8)
        ensures
            r == self.raw(),
            Self::min_raw() <= r <= Self::max_raw(),
    ;

    /// The zero-based position of the value inside its field.
    fn index(&self) -> (r: u8)
        ensures
            r == self.raw() - Self::min_raw(),
            r <= Self::max_raw() - Self::min_raw(),
    ;

    /// The zero-based position of the largest value.
    fn max_index() -> (r: u8)
        ensures
            r == Self::max_raw() - Self::min_raw(),
    ;
}

/// A minute value, 0-59.
#[derive(Debug, Clone, Copy, PartialEq, Eq, PartialOrd, Ord)]
pub struct Minute(u8);

impl Minute {
    /// The smallest raw value.
    pub const MIN: u8 = 0;
    /// The largest raw value.
    pub const MAX: u8 = 59;

    #[verifier::type_invariant]
    spec fn inv(self) -> bool {
        self.0 <= 59
    }

    /// The value `value`, or an error where it lies outside `MIN..=MAX`.
    pub fn new(value: u8) -> (r: Result<Self, ValueOutOfRangeError>)
        ensures
            r is Ok <==> 0 <= value <= 59,
            r is Ok ==> r->Ok_0 == Self::from_raw(value as int) && r->Ok_0.raw() == value,
    {
        if value <= 59 {
            Ok(Minute(value))
        } else {
            Err(ValueOutOfRangeError)
        }
    }
}

impl ExprValue for Minute {
    open spec fn min_raw() -> int {
        0
    }

    open spec fn max_raw() -> int {
        59
    }

    closed spec fn raw(&self) -> int {
        self.0 as int
    }

    closed spec fn from_raw(raw: int) -> Self {
        Minute(raw as u8)
    }

    proof fn lemma_from_raw(raw: int) {
    }

    open spec fn atom_at(s: Seq<u8>, i: int) -> Option<(Self, int)> {
        match number_at(s, i) {
            Some((v, j)) => if 0 <= v <= 59 {
                Some((Self::from_raw(v), j))
            } else {
                None
            },
            None => None,
        }
    }

    fn parse_atom(s: &[u8], i: usize) -> (r: Option<(Self, usize)>) {
        match number(s, i) {
            Some((v, j)) => match Self::new(v) {
                Ok(x) => Some((x, j)),
                Err(_) => None,
            },
            None => None,
        }
    }

    proof fn lemma_bounds() {
    }

    fn min() -> (r: Self) {
        Minute(0)
    }

    fn max() -> (r: Self) {
        Minute(59)
    }

    fn value(&self) -> (r: u8) {
        proof {
            use_type_invariant(self);
        }
        self.0
    }

    fn index(&self) -> (r: u8) {
        proof {
            use_type_invariant(self);
        }
        self.0
    }

    fn max_index() -> (r: u8) {
        59
    }
}

impl TryFrom<u8> for Minute {
    type Error = ValueOutOfRangeError;

    fn try_from(value: u8) -> (r: Result<Self, Self::Error>) {
        if value <= 59 {
            Ok(Minute(value))
        } else {
            Err(ValueOutOfRangeError)
        }
    }
}

impl vstd::std_specs::convert::TryFromSpecImpl<u8> for Minute {
    open spec fn obeys_try_from_spec() -> bool {
        true
    }

    closed spec fn try_from_spec(v: u8) -> Result<Self, Self::Error> {
        if v <= 59 {
            Ok(Minute(v))
        } else {
            Err(ValueOutOfRangeError)
        }
    }
}

/// An hour value, 0-23.
#[derive(Debug, Clone, Copy, PartialEq, Eq, PartialOrd, Ord)]
pub struct Hour(u8);

impl Hour {
    /// The smallest raw value.
    pub const MIN: u8 = 0;
    /// The largest raw value.
    pub const MAX: u8 = 23;

    #[verifier::type_invariant]
    spec fn inv(self) -> bool {
        self.0 <= 23
    }

    /// The value `value`, or an error where it lies outside `MIN..=MAX`.
    pub fn new(value: u8) -> (r: Result<Self, ValueOutOfRangeError>)
        ensures
            r is Ok <==> 0 <= value <= 23,
            r is Ok ==> r->Ok_0 == Self::from_raw(value as int) && r->Ok_0.raw() == value,
    {
        if value <= 23 {
            Ok(Hour(value))
        } else {
            Err(ValueOutOfRangeError)
        }
    }
}

impl ExprValue for Hour {
    open spec fn min_raw() -> int {
        0
    }

    open spec fn max_raw() -> int {
        23
    }

    closed spec fn raw(&self) -> int {
        self.0 as int
    }

    closed spec fn from_raw(raw: int) -> Self {
        Hour(raw as u8)
    }

    proof fn lemma_from_raw(raw: int) {
    }

    open spec fn atom_at(s: Seq<u8>, i: int) -> Option<(Self, int)> {
        match number_at(s, i) {
            Some((v, j)) => if 0 <= v <= 23 {
                Some((Self::from_raw(v), j))
            } else {
                None
            },
            None => None,
        }
    }

    fn parse_atom(s: &[u8], i: usize) -> (r: Option<(Self, usize)>) {
        match number(s, i) {
            Some((v, j)) => match Self::new(v) {
                Ok(x) => Some((x, j)),
                Err(_) => None,
            },
            None => None,
        }
    }

    proof fn lemma_bounds() {
    }

    fn min() -> (r: Self) {
        Hour(0)
    }

    fn max() -> (r: Self) {
        Hour(23)
    }

    fn value(&self) -> (r: u8) {
        proof {
            use_type_invariant(self);
        }
        self.0
    }

    fn index(&self) -> (r: u8) {
        proof {
            use_type_invariant(self);
        }
        self.0
    }

    fn max_index() -> (r: u8) {
        23
    }
}

impl TryFrom<u8> for Hour {
    type Error = ValueOutOfRangeError;

    fn try_from(value: u8) -> (r: Result<Self, Self::Error>) {
        if value <= 23 {
            Ok(Hour(value))
        } else {
            Err(ValueOutOfRangeError)
        }
    }
}

impl vstd::std_specs::convert::TryFromSpecImpl<u8> for Hour {
    open spec fn obeys_try_from_spec() -> bool {
        true
    }

    closed spec fn try_from_spec(v: u8) -> Result<Self, Self::Error> {
        if v <= 23 {
            Ok(Hour(v))
        } else {
            Err(ValueOutOfRangeError)
        }
    }
}

/// A day of the month, 1-31.
#[derive(Debug, Clone, Copy, PartialEq, Eq, PartialOrd, Ord)]
pub struct DayOfMonth(u8);

impl DayOfMonth {
    /// The smallest raw value.
    pub const MIN: u8 = 1;
    /// The largest raw value.
    pub const MAX: u8 = 31;

    #[verifier::type_invariant]
    spec fn inv(self) -> bool {
        1 <= self.0 && self.0 <= 31
    }

    /// The value `value`, or an error where it lies outside `MIN..=MAX`.
    pub fn new(value: u8) -> (r: Result<Self, ValueOutOfRangeError>)
        ensures
            r is Ok <==> 1 <= value <= 31,
            r is Ok ==> r->Ok_0 == Self::from_raw(value as int) && r->Ok_0.raw() == value,
    {
        if 1 <= value && value <= 31 {
            Ok(DayOfMonth(value))
        } else {
            Err(ValueOutOfRangeError)
        }
    }
}

impl ExprValue for DayOfMonth {
    open spec fn min_raw() -> int {
        1
    }

    open spec fn max_raw() -> int {
        31
    }

    closed spec fn raw(&self) -> int {
        self.0 as int
    }

    closed spec fn from_raw(raw: int) -> Self {
        DayOfMonth(raw as u8)
    }

    proof fn lemma_from_raw(raw: int) {
    }

    open spec fn atom_at(s: Seq<u8>, i: int) -> Option<(Self, int)> {
        match number_at(s, i) {
            Some((v, j)) => if 1 <= v <= 31 {
                Some((Self::from_raw(v), j))
            } else {
                None
            },
            None => None,
        }
    }

    fn parse_atom(s: &[u8], i: usize) -> (r: Option<(Self, usize)>) {
        match number(s, i) {
            Some((v, j)) => match Self::new(v) {
                Ok(x) => Some((x, j)),
                Err(_) => None,
            },
            None => None,
        }
    }

    proof fn lemma_bounds() {
    }

    fn min() -> (r: Self) {
        DayOfMonth(1)
    }

    fn max() -> (r: Self) {
        DayOfMonth(31)
    }

    fn value(&self) -> (r: u8) {
        proof {
            use_type_invariant(self);
        }
        self.0
    }

    fn index(&self) -> (r: u8) {
        proof {
            use_type_invariant(self);
        }
        self.0 - 1
    }

    fn max_index() -> (r: u8) {
        30
    }
}

impl TryFrom<u8> for DayOfMonth {
    type Error = ValueOutOfRangeError;

    fn try_from(value: u8) -> (r: Result<Self, Self::Error>) {
        if 1 <= value && value <= 31 {
            Ok(DayOfMonth(value))
        } else {
            Err(ValueOutOfRangeError)
        }
    }
}

impl vstd::std_specs::convert::TryFromSpecImpl<u8> for DayOfMonth {
    open spec fn obeys_try_from_spec() -> bool {
        true
    }

    closed spec fn try_from_spec(v: u8) -> Result<Self, Self::Error> {
        if 1 <= v && v <= 31 {
            Ok(DayOfMonth(v))
        } else {
            Err(ValueOutOfRangeError)
        }
    }
}

/// An offset back from the last day of the month, 1-30.
#[derive(Debug, Clone, Copy, PartialEq, Eq, PartialOrd, Ord)]
pub struct DayOfMonthOffset(u8);

impl DayOfMonthOffset {
    /// The smallest raw value.
    pub const MIN: u8 = 1;
    /// The largest raw value.
    pub const MAX: u8 = 30;

    #[verifier::type_invariant]
    spec fn inv(self) -> bool {
        1 <= self.0 && self.0 <= 30
    }

    /// The value `value`, or an error where it lies outside `MIN..=MAX`.
    pub fn new(value: u8) -> (r: Result<Self, ValueOutOfRangeError>)
        ensures
            r is Ok <==> 1 <= value <= 30,
            r is Ok ==> r->Ok_0 == Self::from_raw(value as int) && r->Ok_0.raw() == value,
    {
        if 1 <= value && value <= 30 {
            Ok(DayOfMonthOffset(value))
        } else {
            Err(ValueOutOfRangeError)
        }
    }
}

impl ExprValue for DayOfMonthOffset {
    open spec fn min_raw() -> int {
        1
    }

    open spec fn max_raw() -> int {
        30
    }

    closed spec fn raw(&self) -> int {
        self.0 as int
    }

    closed spec fn from_raw(raw: int) -> Self {
        DayOfMonthOffset(raw as u8)
    }

    proof fn lemma_from_raw(raw: int) {
    }

    open spec fn atom_at(s: Seq<u8>, i: int) -> Option<(Self, int)> {
        match number_at(s, i) {
            Some((v, j)) => if 1 <= v <= 30 {
                Some((Self::from_raw(v), j))
            } else {
                None
            },
            None => None,
        }
    }

    fn parse_atom(s: &[u8], i: usize) -> (r: Option<(Self, usize)>) {
        match number(s, i) {
            Some((v, j)) => match Self::new(v) {
                Ok(x) => Some((x, j)),
                Err(_) => None,
            },
            None => None,
        }
    }

    proof fn lemma_bounds() {
    }

    fn min() -> (r: Self) {
        DayOfMonthOffset(1)
    }

    fn max() -> (r: Self) {
        DayOfMonthOffset(30)
    }

    fn value(&self) -> (r: u8) {
        proof {
            use_type_invariant(self);
        }
        self.0
    }

    fn index(&self) -> (r: u8) {
        proof {
            use_type_invariant(self);
        }
        self.0 - 1
    }

    fn max_index() -> (r: u8) {
        29
    }
}

impl TryFrom<u8> for DayOfMonthOffset {
    type Error = ValueOutOfRangeError;

    fn try_from(value: u8) -> (r: Result<Self, Self::Error>) {
        if 1 <= value && value <= 30 {
            Ok(DayOfMonthOffset(value))
        } else {
            Err(ValueOutOfRangeError)
        }
    }
}

impl vstd::std_specs::convert::TryFromSpecImpl<u8> for DayOfMonthOffset {
    open spec fn obeys_try_from_spec() -> bool {
        true
    }

    closed spec fn try_from_spec(v: u8) -> Result<Self, Self::Error> {
        if 1 <= v && v <= 30 {
            Ok(DayOfMonthOffset(v))
        } else {
            Err(ValueOutOfRangeError)
        }
    }
}

/// A month, 1-12 (January-December).
#[derive(Debug, Clone, Copy, PartialEq, Eq, PartialOrd, Ord)]
pub struct Month(u8);

impl Month {
    /// The smallest raw value.
    pub const MIN: u8 = 1;
    /// The largest raw value.
    pub const MAX: u8 = 12;

    #[verifier::type_invariant]
    spec fn inv(self) -> bool {
        1 <= self.0 && self.0 <= 12
    }

    /// The value `value`, or an error where it lies outside `MIN..=MAX`.
    pub fn new(value: u8) -> (r: Result<Self, ValueOutOfRangeError>)
        ensures
            r is Ok <==> 1 <= value <= 12,
            r is Ok ==> r->Ok_0 == Self::from_raw(value as int) && r->Ok_0.raw() == value,
    {
        if 1 <= value && value <= 12 {
            Ok(Month(value))
        } else {
            Err(ValueOutOfRangeError)
        }
    }
}

impl ExprValue for Month {
    open spec fn min_raw() -> int {
        1
    }

    open spec fn max_raw() -> int {
        12
    }

    closed spec fn raw(&self) -> int {
        self.0 as int
    }

    closed spec fn from_raw(raw: int) -> Self {
        Month(raw as u8)
    }

    proof fn lemma_from_raw(raw: int) {
    }

    open spec fn atom_at(s: Seq<u8>, i: int) -> Option<(Self, int)> {
        match number_at(s, i) {
            Some((v, j)) if 1 <= v <= 12 => Some((Self::from_raw(v), j)),
            _ => if name_at(s, i, 106, 97, 110) {
                Some((Self::from_raw(1), i + 3))
            } else if name_at(s, i, 102, 101, 98) {
                Some((Self::from_raw(2), i + 3))
            } else if name_at(s, i, 109, 97, 114) {
                Some((Self::from_raw(3), i + 3))
            } else if name_at(s, i, 97, 112, 114) {
                Some((Self::from_raw(4), i + 3))
            } else if name_at(s, i, 109, 97, 121) {
                Some((Self::from_raw(5), i + 3))
            } else if name_at(s, i, 106, 117, 110) {
                Some((Self::from_raw(6), i + 3))
            } else if name_at(s, i, 106, 117, 108) {
                Some((Self::from_raw(7), i + 3))
            } else if name_at(s, i, 97, 117, 103) {
                Some((Self::from_raw(8), i + 3))
            } else if name_at(s, i, 115, 101, 112) {
                Some((Self::from_raw(9), i + 3))
            } else if name_at(s, i, 111, 99, 116) {
                Some((Self::from_raw(10), i + 3))
            } else if name_at(s, i, 110, 111, 118) {
                Some((Self::from_raw(11), i + 3))
            } else if name_at(s, i, 100, 101, 99) {
                Some((Self::from_raw(12), i + 3))
            } else {
                None
            },
        }
    }

    fn parse_atom(s: &[u8], i: usize) -> (r: Option<(Self, usize)>) {
        match number(s, i) {
            Some((v, j)) => match Self::new(v) {
                Ok(x) => return Some((x, j)),
                Err(_) => {},
            },
            None => {},
        }
        match name(s, i, 106, 97, 110) {
            Some(j) => return Some((Month(1), j)),
            None => {},
        }
        match name(s, i, 102, 101, 98) {
            Some(j) => return Some((Month(2), j)),
            None => {},
        }
        match name(s, i, 109, 97, 114) {
            Some(j) => return Some((Month(3), j)),
            None => {},
        }
        match name(s, i, 97, 112, 114) {
            Some(j) => return Some((Month(4), j)),
            None => {},
        }
        match name(s, i, 109, 97, 121) {
            Some(j) => return Some((Month(5), j)),
            None => {},
        }
        match name(s, i, 106, 117, 110) {
            Some(j) => return Some((Month(6), j)),
            None => {},
        }
        match name(s, i, 106, 117, 108) {
            Some(j) => return Some((Month(7), j)),
            None => {},
        }
        match name(s, i, 97, 117, 103) {
            Some(j) => return Some((Month(8), j)),
            None => {},
        }
        match name(s, i, 115, 101, 112) {
            Some(j) => return Some((Month(9), j)),
            None => {},
        }
        match name(s, i, 111, 99, 116) {
            Some(j) => return Some((Month(10), j)),
            None => {},
        }
        match name(s, i, 110, 111, 118) {
            Some(j) => return Some((Month(11), j)),
            None => {},
        }
        match name(s, i, 100, 101, 99) {
            Some(j) => return Some((Month(12), j)),
            None => {},
        }
        None
    }

    proof fn lemma_bounds() {
    }

    fn min() -> (r: Self) {
        Month(1)
    }

    fn max() -> (r: Self) {
        Month(12)
    }

    fn value(&self) -> (r: u8) {
        proof {
            use_type_invariant(self);
        }
        self.0
    }

    fn index(&self) -> (r: u8) {
        proof {
            use_type_invariant(self);
        }
        self.0 - 1
    }

    fn max_index() -> (r: u8) {
        11
    }
}

impl TryFrom<u8> for Month {
    type Error = ValueOutOfRangeError;

    fn try_from(value: u8) -> (r: Result<Self, Self::Error>) {
        if 1 <= value && value <= 12 {
            Ok(Month(value))
        } else {
            Err(ValueOutOfRangeError)
        }
    }
}

impl vstd::std_specs::convert::TryFromSpecImpl<u8> for Month {
    open spec fn obeys_try_from_spec() -> bool {
        true
    }

    closed spec fn try_from_spec(v: u8) -> Result<Self, Self::Error> {
        if 1 <= v && v <= 12 {
            Ok(Month(v))
        } else {
            Err(ValueOutOfRangeError)
        }
    }
}

/// An occurrence of a weekday within a month, 1-5.
#[derive(Debug, Clone, Copy, PartialEq, Eq, PartialOrd, Ord)]
pub struct NthDay(u8);

impl NthDay {
    /// The smallest raw value.
    pub const MIN: u8 = 1;
    /// The largest raw value.
    pub const MAX: u8 = 5;

    #[verifier::type_invariant]
    spec fn inv(self) -> bool {
        1 <= self.0 && self.0 <= 5
    }

    /// The value `value`, or an error where it lies outside `MIN..=MAX`.
    pub fn new(value: u8) -> (r: Result<Self, ValueOutOfRangeError>)
        ensures
            r is Ok <==> 1 <= value <= 5,
            r is Ok ==> r->Ok_0 == Self::from_raw(value as int) && r->Ok_0.raw() == value,
    {
        if 1 <= value && value <= 5 {
            Ok(NthDay(value))
        } else {
            Err(ValueOutOfRangeError)
        }
    }
}

impl ExprValue for NthDay {
    open spec fn min_raw() -> int {
        1
    }

    open spec fn max_raw() -> int {
        5
    }

    closed spec fn raw(&self) -> int {
        self.0 as int
    }

    closed spec fn from_raw(raw: int) -> Self {
        NthDay(raw as u8)
    }

    proof fn lemma_from_raw(raw: int) {
    }

    open spec fn atom_at(s: Seq<u8>, i: int) -> Option<(Self, int)> {
        match number_at(s, i) {
            Some((v, j)) => if 1 <= v <= 5 {
                Some((Self::from_raw(v), j))
            } else {
                None
            },
            None => None,
        }
    }

    fn parse_atom(s: &[u8], i: usize) -> (r: Option<(Self, usize)>) {
        match number(s, i) {
            Some((v, j)) => match Self::new(v) {
                Ok(x) => Some((x, j)),
                Err(_) => None,
            },
            None => None,
        }
    }

    proof fn lemma_bounds() {
    }

    fn min() -> (r: Self) {
        NthDay(1)
    }

    fn max() -> (r: Self) {
        NthDay(5)
    }

    fn value(&self) -> (r: u8) {
        proof {
            use_type_invariant(self);
        }
        self.0
    }

    fn index(&self) -> (r: u8) {
        proof {
            use_type_invariant(self);
        }
        self.0 - 1
    }

    fn max_index() -> (r: u8) {
        4
    }
}

impl TryFrom<u8> for NthDay {
    type Error = ValueOutOfRangeError;

    fn try_from(value: u8) -> (r: Result<Self, Self::Error>) {
        if 1 <= value && value <= 5 {
            Ok(NthDay(value))
        } else {
            Err(ValueOutOfRangeError)
        }
    }
}

impl vstd::std_specs::convert::TryFromSpecImpl<u8> for NthDay {
    open spec fn obeys_try_from_spec() -> bool {
        true
    }

    closed spec fn try_from_spec(v: u8) -> Result<Self, Self::Error> {
        if 1 <= v && v <= 5 {
            Ok(NthDay(v))
        } else {
            Err(ValueOutOfRangeError)
        }
    }
}

/// A day of the week, 1-7 (Sunday-Saturday).
#[derive(Debug, Clone, Copy, PartialEq, Eq, PartialOrd, Ord)]
pub struct DayOfWeek(u8);

impl DayOfWeek {
    /// The smallest raw value.
    pub const MIN: u8 = 1;
    /// The largest raw value.
    pub const MAX: u8 = 7;

    #[verifier::type_invariant]
    spec fn inv(self) -> bool {
        1 <= self.0 && self.0 <= 7
    }

    /// The value `value`, or an error where it lies outside `MIN..=MAX`.
    pub fn new(value: u8) -> (r: Result<Self, ValueOutOfRangeError>)
        ensures
            r is Ok <==> 1 <= value <= 7,
            r is Ok ==> r->Ok_0 == Self::from_raw(value as int) && r->Ok_0.raw() == value,
    {
        if 1 <= value && value <= 7 {
            Ok(DayOfWeek(value))
        } else {
            Err(ValueOutOfRangeError)
        }
    }
}

impl ExprValue for DayOfWeek {
    open spec fn min_raw() -> int {
        1
    }

    open spec fn max_raw() -> int {
        7
    }

    closed spec fn raw(&self) -> int {
        self.0 as int
    }

    closed spec fn from_raw(raw: int) -> Self {
        DayOfWeek(raw as u8)
    }

    proof fn lemma_from_raw(raw: int) {
    }

    open spec fn atom_at(s: Seq<u8>, i: int) -> Option<(Self, int)> {
        match number_at(s, i) {
            Some((v, j)) if 1 <= v <= 7 => Some((Self::from_raw(v), j)),
            _ => if name_at(s, i, 115, 117, 110) {
                Some((Self::from_raw(1), i + 3))
            } else if name_at(s, i, 109, 111, 110) {
                Some((Self::from_raw(2), i + 3))
            } else if name_at(s, i, 116, 117, 101) {
                Some((Self::from_raw(3), i + 3))
            } else if name_at(s, i, 119, 101, 100) {
                Some((Self::from_raw(4), i + 3))
            } else if name_at(s, i, 116, 104, 117) {
                Some((Self::from_raw(5), i + 3))
            } else if name_at(s, i, 102, 114, 105) {
                Some((Self::from_raw(6), i + 3))
            } else if name_at(s, i, 115, 97, 116) {
                Some((Self::from_raw(7), i + 3))
            } else {
                None
            },
        }
    }

    fn parse_atom(s: &[u8], i: usize) -> (r: Option<(Self, usize)>) {
        match number(s, i) {
            Some((v, j)) => match Self::new(v) {
                Ok(x) => return Some((x, j)),
                Err(_) => {},
            },
            None => {},
        }
        match name(s, i, 115, 117, 110) {
            Some(j) => return Some((DayOfWeek(1), j)),
            None => {},
        }
        match name(s, i, 109, 111, 110) {
            Some(j) => return Some((DayOfWeek(2), j)),
            None => {},
        }
        match name(s, i, 116, 117, 101) {
            Some(j) => return Some((DayOfWeek(3), j)),
            None => {},
        }
        match name(s, i, 119, 101, 100) {
            Some(j) => return Some((DayOfWeek(4), j)),
            None => {},
        }
        match name(s, i, 116, 104, 117) {
            Some(j) => return Some((DayOfWeek(5), j)),
            None => {},
        }
        match name(s, i, 102, 114, 105) {
            Some(j) => return Some((DayOfWeek(6), j)),
            None => {},
        }
        match name(s, i, 115, 97, 116) {
            Some(j) => return Some((DayOfWeek(7), j)),
            None => {},
        }
        None
    }

    proof fn lemma_bounds() {
    }

    fn min() -> (r: Self) {
        DayOfWeek(1)
    }

    fn max() -> (r: Self) {
        DayOfWeek(7)
    }

    fn value(&self) -> (r: u8) {
        proof {
            use_type_invariant(self);
        }
        self.0
    }

    fn index(&self) -> (r: u8) {
        proof {
            use_type_invariant(self);
        }
        self.0 - 1
    }

    fn max_index() -> (r: u8) {
        6
    }
}

impl TryFrom<u8> for DayOfWeek {
    type Error = ValueOutOfRangeError;

    fn try_from(value: u8) -> (r: Result<Self, Self::Error>) {
        if 1 <= value && value <= 7 {
            Ok(DayOfWeek(value))
        } else {
            Err(ValueOutOfRangeError)
        }
    }
}

impl vstd::std_specs::convert::TryFromSpecImpl<u8> for DayOfWeek {
    open spec fn obeys_try_from_spec() -> bool {
        true
    }

    closed spec fn try_from_spec(v: u8) -> Result<Self, Self::Error> {
        if 1 <= v && v <= 7 {
            Ok(DayOfWeek(v))
        } else {
            Err(ValueOutOfRangeError)
        }
    }
}

/// A step of a stepped range over the field `E`, 1 up to the width of the field minus one.
#[derive(Debug, Copy, PartialEq, Eq, PartialOrd, Ord)]
pub struct Step<E: ExprValue> {
    e: PhantomData<E>,
    value: u8,
}

impl<E: ExprValue> Step<E> {
    /// The step of the given length.
    pub closed spec fn from_len(len: int) -> Self {
        Step { e: PhantomData, value: len as u8 }
    }

    #[verifier::type_invariant]
    spec fn inv(self) -> bool {
        1 <= self.value <= E::max_raw() - E::min_raw()
    }

    /// The length of the step.
    pub closed spec fn len(self) -> int {
        self.value as int
    }

    /// The length of the step.
    pub fn value(&self) -> (r: u8)
        ensures
            r == self.len(),
            1 <= r <= E::max_raw() - E::min_raw(),
    {
        proof {
            use_type_invariant(self);
        }
        self.value
    }

    /// A step of the given length, or an error where it lies outside `1..=MAX-MIN` of `E`.
    pub fn new(value: u8) -> (r: Result<Self, ValueOutOfRangeError>)
        ensures
            r is Ok <==> 1 <= value <= E::max_raw() - E::min_raw(),
            r is Ok ==> r->Ok_0 == Self::from_len(value as int) && r->Ok_0.len() == value,
    {
        let top = E::max_index();
        if 1 <= value && value <= top {
            Ok(Step { e: PhantomData, value })
        } else {
            Err(ValueOutOfRangeError)
        }
    }
}

impl<E: ExprValue> Clone for Step<E> {
    fn clone(&self) -> (r: Self)
        ensures
            r == *self,
    {
        proof {
            use_type_invariant(self);
        }
        Step { e: PhantomData, value: self.value }
    }
}

impl<E: ExprValue> TryFrom<u8> for Step<E> {
    type Error = ValueOutOfRangeError;

    fn try_from(value: u8) -> (r: Result<Self, Self::Error>) {
        let top = E::max_index();
        if 1 <= value && value <= top {
            Ok(Step { e: PhantomData, value })
        } else {
            Err(ValueOutOfRangeError)
        }
    }
}

impl<E: ExprValue> vstd::std_specs::convert::TryFromSpecImpl<u8> for Step<E> {
    open spec fn obeys_try_from_spec() -> bool {
        true
    }

    closed spec fn try_from_spec(v: u8) -> Result<Self, Self::Error> {
        if 1 <= v <= E::max_raw() - E::min_raw() {
            Ok(Step { e: PhantomData, value: v })
        } else {
            Err(ValueOutOfRangeError)
        }
    }
}

} // verus!
