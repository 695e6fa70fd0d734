//! Identifiers: random 128-bit numbers, shown in the hyphenated form.
use vstd::prelude::*;

verus! {

/// `x` carries the version and variant marks of a random identifier.
pub open spec fn is_random_id(x: u128) -> bool {
    ((x >> 76) & 0xf) == 4 && ((x >> 62) & 0x3) == 2
}

/// The lower-case hexadecimal digit of value `d`.
pub open spec fn hex_char(d: int) -> char {
    if d < 10 {
        (48 + d) as char
    } else {
        (87 + d) as char
    }
}

/// How many hyphens stand before position `i` of the hyphenated form.
pub open spec fn hyphens_before(i: int) -> int {
    if i <= 8 {
        0
    } else if i <= 13 {
        1
    } else if i <= 18 {
        2
    } else if i <= 23 {
        3
    } else {
        4
    }
}

/// The hyphenated form of `x`: 32 lower-case hexadecimal digits, most
/// significant first, in groups of 8, 4, 4, 4 and 12.
pub open spec fn hyphenated(x: u128) -> Seq<char> {
    Seq::new(
        36,
        |i: int|
            if i == 8 || i == 13 || i == 18 || i == 23 {
                '-'
            } else {
                hex_char(((x >> (4 * (31 - (i - hyphens_before(i))))) & 0xf) as int)
            },
    )
}

/// `uuid::Uuid::new_v4`: a number drawn at random, of which only the version
/// and variant marks are fixed. Two draws are not promised to differ.
#[verifier::external_body]
fn draw_id() -> (res: u128)
    ensures
        is_random_id(res),
{
    uuid::Uuid::new_v4().as_u128()
}

/// `uuid::Uuid`'s `Display`: the number in hyphenated lower-case hexadecimal.
#[verifier::external_body]
fn id_text(x: u128) -> (res: String)
    ensures
        res@ == hyphenated(x),
{
    uuid::Uuid::from_u128(x).to_string()
}

/// Names one trajectory.
#[derive(Debug, Clone, Copy, PartialEq, Eq, Structural, Hash)]
pub struct TrajectoryId(pub u128);

impl TrajectoryId {
    /// A random identifier.
    pub fn new() -> (res: Self)
        ensures
            is_random_id(res.0),
    {
        TrajectoryId(draw_id())
    }

    /// The hyphenated form.
    pub fn to_text(&self) -> (res: String)
        ensures
            res@ == hyphenated(self.0),
    {
        id_text(self.0)
    }
}

/// Unique id for a step within (or across) trajectories.
#[derive(Debug, Clone, Copy, PartialEq, Eq, Structural, Hash)]
pub struct StepId(pub u128);

impl StepId {
    /// A random identifier.
    pub fn new() -> (res: Self)
        ensures
            is_random_id(res.0),
    {
        StepId(draw_id())
    }

    /// The hyphenated form.
    pub fn to_text(&self) -> (res: String)
        ensures
            res@ == hyphenated(self.0),
    {
        id_text(self.0)
    }
}

/// Opaque handle into the logical prefix tree.
#[derive(Debug, Clone, Copy, PartialEq, Eq, Structural, Hash)]
pub struct PrefixNodeId(pub u128);

impl PrefixNodeId {
    /// A random identifier.
    pub fn new() -> (res: Self)
        ensures
            is_random_id(res.0),
    {
        PrefixNodeId(draw_id())
    }

    /// The hyphenated form.
    pub fn to_text(&self) -> (res: String)
        ensures
            res@ == hyphenated(self.0),
    {
        id_text(self.0)
    }
}

impl Default for TrajectoryId {
    fn default() -> (res: Self)
        ensures
            is_random_id(res.0),
    {
        Self::new()
    }
}

impl Default for StepId {
    fn default() -> (res: Self)
        ensures
            is_random_id(res.0),
    {
        Self::new()
    }
}

impl Default for PrefixNodeId {
    fn default() -> (res: Self)
        ensures
            is_random_id(res.0),
    {
        Self::new()
    }
}

/// An identifier shows as 36 characters: four hyphens, after the eighth,
/// twelfth, sixteenth and twentieth of its digits, the highest first.
pub proof fn law_shown(x: u128)
    ensures
        hyphenated(x).len() == 36,
        hyphenated(x)[8] == '-' && hyphenated(x)[13] == '-' && hyphenated(x)[18] == '-'
            && hyphenated(x)[23] == '-',
        hyphenated(x)[0] == hex_char(((x >> 124) & 0xf) as int),
        hyphenated(x)[9] == hex_char(((x >> 92) & 0xf) as int),
        hyphenated(x)[14] == hex_char(((x >> 76) & 0xf) as int),
        hyphenated(x)[19] == hex_char(((x >> 60) & 0xf) as int),
        hyphenated(x)[24] == hex_char(((x >> 44) & 0xf) as int),
        hyphenated(x)[35] == hex_char(((x >> 0) & 0xf) as int),
        is_random_id(x) ==> hyphenated(x)[14] == '4',
{
}

/// The sixteen digits are those of hexadecimal numbers, in lower case.
pub proof fn law_hex_digits()
    ensures
        hex_char(0) == '0' && hex_char(1) == '1' && hex_char(2) == '2' && hex_char(3) == '3',
        hex_char(4) == '4' && hex_char(5) == '5' && hex_char(6) == '6' && hex_char(7) == '7',
        hex_char(8) == '8' && hex_char(9) == '9' && hex_char(10) == 'a' && hex_char(11) == 'b',
        hex_char(12) == 'c' && hex_char(13) == 'd' && hex_char(14) == 'e' && hex_char(15) == 'f',
{
}

} // verus!
