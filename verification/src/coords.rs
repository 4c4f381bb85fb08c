//! Bounded identifier types for piece kinds and board positions, the signed
//! variant tag `Suffix`, the sharding key `Region`, and the qualified
//! coordinates `QPos` and `QKind` that address every stored fact.

use crate::lookup::TableId;
use vstd::prelude::*;

verus! {

/// Smallest value accepted for a `Kind` identifier.
pub const MIN_KIND: u32 = 1;

/// Largest value accepted for a `Kind` identifier.
pub const MAX_KIND: u32 = 9999;

/// Smallest value accepted for a `Pos` identifier.
pub const MIN_POS: u32 = 1;

/// Largest value accepted for a `Pos` identifier.
pub const MAX_POS: u32 = 9999;

/// Identifier for a category of game piece. Always holds a value in
/// `[MIN_KIND, MAX_KIND]`.
#[derive(Debug, Hash, Eq, PartialEq, Ord, PartialOrd, Copy, Clone, Structural)]
pub struct Kind(u16);

/// The rejected value offered as a `Kind` identifier.
#[derive(Debug, Eq, PartialEq, Copy, Clone, Structural)]
pub struct InvalidKind(pub u32);

impl Kind {
    /// The numeric value this identifier stands for.
    pub closed spec fn value(self) -> u32 {
        self.0 as u32
    }

    /// The identifier standing for `v`; meaningful for `v` within bounds.
    pub closed spec fn from_u32(v: u32) -> Kind {
        Kind(v as u16)
    }

    /// A `Kind` only ever holds a value inside the declared bounds.
    pub closed spec fn wf(self) -> bool {
        MIN_KIND <= self.0 <= MAX_KIND
    }

    /// Bounded construction: succeeds exactly on values in
    /// `[MIN_KIND, MAX_KIND]` and round-trips the value.
    pub fn new(value: u32) -> (r: Result<Kind, InvalidKind>)
        ensures
            r is Ok <==> MIN_KIND <= value <= MAX_KIND,
            r matches Ok(k) ==> k.value() == value && k.wf() && k == Kind::from_u32(value),
            r matches Err(e) ==> e == (InvalidKind(value)),
    {
        if value >= MIN_KIND && value <= MAX_KIND {
            Ok(Kind(value as u16))
        } else {
            Err(InvalidKind(value))
        }
    }

    /// The identifier as the integer it was constructed from.
    pub fn as_u32(&self) -> (r: u32)
        ensures
            r == self.value(),
    {
        self.0 as u32
    }

    /// The identifier as an index.
    pub fn as_usize(&self) -> (r: usize)
        ensures
            r == self.value(),
    {
        self.0 as usize
    }
}

/// Identifier for a named board location. Always holds a value in
/// `[MIN_POS, MAX_POS]`.
#[derive(Debug, Hash, Eq, PartialEq, Ord, PartialOrd, Copy, Clone, Structural)]
pub struct Pos(u16);

/// The rejected value offered as a `Pos` identifier.
#[derive(Debug, Eq, PartialEq, Copy, Clone, Structural)]
pub struct InvalidPos(pub u32);

impl Pos {
    /// The numeric value this identifier stands for.
    pub closed spec fn value(self) -> u32 {
        self.0 as u32
    }

    /// The identifier standing for `v`; meaningful for `v` within bounds.
    pub closed spec fn from_u32(v: u32) -> Pos {
        Pos(v as u16)
    }

    /// A `Pos` only ever holds a value inside the declared bounds.
    pub closed spec fn wf(self) -> bool {
        MIN_POS <= self.0 <= MAX_POS
    }

    /// Bounded construction: succeeds exactly on values in
    /// `[MIN_POS, MAX_POS]` and round-trips the value.
    pub fn new(value: u32) -> (r: Result<Pos, InvalidPos>)
        ensures
            r is Ok <==> MIN_POS <= value <= MAX_POS,
            r matches Ok(p) ==> p.value() == value && p.wf() && p == Pos::from_u32(value),
            r matches Err(e) ==> e == (InvalidPos(value)),
    {
        if value >= MIN_POS && value <= MAX_POS {
            Ok(Pos(value as u16))
        } else {
            Err(InvalidPos(value))
        }
    }

    /// The identifier as the integer it was constructed from.
    pub fn as_u32(&self) -> (r: u32)
        ensures
            r == self.value(),
    {
        self.0 as u32
    }

    /// The identifier as an index.
    pub fn as_usize(&self) -> (r: usize)
        ensures
            r == self.value(),
    {
        self.0 as usize
    }
}

/// The character of one decimal digit.
pub open spec fn decimal_digit(d: u32) -> char {
    if d == 0 {
        '0'
    } else if d == 1 {
        '1'
    } else if d == 2 {
        '2'
    } else if d == 3 {
        '3'
    } else if d == 4 {
        '4'
    } else if d == 5 {
        '5'
    } else if d == 6 {
        '6'
    } else if d == 7 {
        '7'
    } else if d == 8 {
        '8'
    } else {
        '9'
    }
}

/// The decimal rendering of an identifier value zero-padded to three digits;
/// a value of four digits renders whole, not truncated.
pub open spec fn padded_decimal(v: u32) -> Seq<char> {
    if v >= 1000 {
        seq![
            decimal_digit(v / 1000 % 10),
            decimal_digit(v / 100 % 10),
            decimal_digit(v / 10 % 10),
            decimal_digit(v % 10),
        ]
    } else {
        seq![decimal_digit(v / 100 % 10), decimal_digit(v / 10 % 10), decimal_digit(v % 10)]
    }
}

/// The plain decimal rendering of an identifier value, without leading
/// zeroes.
pub open spec fn plain_decimal(v: u32) -> Seq<char> {
    if v >= 1000 {
        seq![
            decimal_digit(v / 1000 % 10),
            decimal_digit(v / 100 % 10),
            decimal_digit(v / 10 % 10),
            decimal_digit(v % 10),
        ]
    } else if v >= 100 {
        seq![decimal_digit(v / 100 % 10), decimal_digit(v / 10 % 10), decimal_digit(v % 10)]
    } else if v >= 10 {
        seq![decimal_digit(v / 10 % 10), decimal_digit(v % 10)]
    } else {
        seq![decimal_digit(v % 10)]
    }
}

/// One decimal digit as text.
fn digit_str(d: u32) -> (r: &'static str)
    requires
        d < 10,
    ensures
        r@ == seq![decimal_digit(d)],
{
    proof {
        reveal_strlit("0");
        reveal_strlit("1");
        reveal_strlit("2");
        reveal_strlit("3");
        reveal_strlit("4");
        reveal_strlit("5");
        reveal_strlit("6");
        reveal_strlit("7");
        reveal_strlit("8");
        reveal_strlit("9");
    }
    let r = if d == 0 {
        "0"
    } else if d == 1 {
        "1"
    } else if d == 2 {
        "2"
    } else if d == 3 {
        "3"
    } else if d == 4 {
        "4"
    } else if d == 5 {
        "5"
    } else if d == 6 {
        "6"
    } else if d == 7 {
        "7"
    } else if d == 8 {
        "8"
    } else {
        "9"
    };
    proof {
        assert(r@ =~= seq![decimal_digit(d)]);
    }
    r
}

/// The zero-padded rendering of an in-bounds identifier value.
fn render_padded(v: u32) -> (r: String)
    requires
        v <= 9999,
    ensures
        r@ == padded_decimal(v),
{
    let mut s = String::new();
    if v >= 1000 {
        s.append(digit_str(v / 1000 % 10));
    }
    s.append(digit_str(v / 100 % 10));
    s.append(digit_str(v / 10 % 10));
    s.append(digit_str(v % 10));
    proof {
        assert(s@ =~= padded_decimal(v));
    }
    s
}

/// The plain decimal rendering of an in-bounds identifier value.
fn render_plain(v: u32) -> (r: String)
    requires
        v <= 9999,
    ensures
        r@ == plain_decimal(v),
{
    let mut s = String::new();
    if v >= 1000 {
        s.append(digit_str(v / 1000 % 10));
    }
    if v >= 100 {
        s.append(digit_str(v / 100 % 10));
    }
    if v >= 10 {
        s.append(digit_str(v / 10 % 10));
    }
    s.append(digit_str(v % 10));
    proof {
        assert(s@ =~= plain_decimal(v));
    }
    s
}

impl Kind {
    /// The diagnostic rendering: zero-padded to three digits.
    pub fn debug_string(&self) -> (r: String)
        requires
            self.wf(),
        ensures
            r@ == padded_decimal(self.value()),
    {
        render_padded(self.as_u32())
    }

    /// The display rendering: the plain decimal value.
    pub fn display_string(&self) -> (r: String)
        requires
            self.wf(),
        ensures
            r@ == plain_decimal(self.value()),
    {
        render_plain(self.as_u32())
    }
}

impl Pos {
    /// The diagnostic rendering: zero-padded to three digits.
    pub fn debug_string(&self) -> (r: String)
        requires
            self.wf(),
        ensures
            r@ == padded_decimal(self.value()),
    {
        render_padded(self.as_u32())
    }

    /// The display rendering: the plain decimal value.
    pub fn display_string(&self) -> (r: String)
        requires
            self.wf(),
        ensures
            r@ == plain_decimal(self.value()),
    {
        render_plain(self.as_u32())
    }
}

/// An in-bounds value round-trips through `Kind::from_u32`.
pub broadcast proof fn lemma_kind_from_u32(v: u32)
    requires
        MIN_KIND <= v <= MAX_KIND,
    ensures
        (#[trigger] Kind::from_u32(v)).value() == v,
        Kind::from_u32(v).wf(),
{
}

/// An in-bounds value round-trips through `Pos::from_u32`.
pub broadcast proof fn lemma_pos_from_u32(v: u32)
    requires
        MIN_POS <= v <= MAX_POS,
    ensures
        (#[trigger] Pos::from_u32(v)).value() == v,
        Pos::from_u32(v).wf(),
{
}

/// Two kinds with one value are one kind.
pub broadcast proof fn lemma_kind_value_injective(a: Kind, b: Kind)
    ensures
        #[trigger] a.value() == #[trigger] b.value() ==> a == b,
{
}

/// Two positions with one value are one position.
pub broadcast proof fn lemma_pos_value_injective(a: Pos, b: Pos)
    ensures
        #[trigger] a.value() == #[trigger] b.value() ==> a == b,
{
}

impl TableId for Kind {
    fn same(&self, other: &Self) -> (r: bool)
        ensures
            r <==> self == other,
    {
        self.0 == other.0
    }
}

impl TableId for Pos {
    fn same(&self, other: &Self) -> (r: bool)
        ensures
            r <==> self == other,
    {
        self.0 == other.0
    }
}

/// Signed variant tag. Zero means "no variant"; its legality is governed
/// externally by a `SuffixSpec`, never by the type itself.
#[derive(Debug, Hash, Eq, PartialEq, Ord, PartialOrd, Copy, Clone, Structural)]
pub struct Suffix(pub i32);

impl TableId for Suffix {
    fn same(&self, other: &Self) -> (r: bool)
        ensures
            r <==> self == other,
    {
        self.0 == other.0
    }
}

/// Unsigned sharding key partitioning a position's contents (for example one
/// per player); unconstrained, purely structural.
#[derive(Debug, Hash, Eq, PartialEq, Ord, PartialOrd, Copy, Clone, Structural)]
pub struct Region(pub u16);

impl TableId for Region {
    fn same(&self, other: &Self) -> (r: bool)
        ensures
            r <==> self == other,
    {
        self.0 == other.0
    }
}

/// Fully qualified position coordinate: position, region, slot suffix.
#[derive(Debug, Hash, Eq, PartialEq, Ord, PartialOrd, Copy, Clone, Structural)]
pub struct QPos {
    pub pos: Pos,
    pub region: Region,
    pub suffix: Suffix,
}

/// Fully qualified kind coordinate: kind plus variant suffix.
#[derive(Debug, Hash, Eq, PartialEq, Ord, PartialOrd, Copy, Clone, Structural)]
pub struct QKind {
    pub kind: Kind,
    pub suffix: Suffix,
}

} // verus!
