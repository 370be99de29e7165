//! Comparison of a computed expansion with a reference, character by
//! character.

use vstd::prelude::*;
use vstd::string::StrSliceExecFns;

verus! {

/// The first thousand characters of the decimal expansion of pi: the
/// leading `3.` and the 998 digits that follow, none of them rounded.
pub const PI_1000: &'static str = "3.14159265358979323846264338327950288419716939937510582097494459230781640628620899862803482534211706798214808651328230664709384460955058223172535940812848111745028410270193852110555964462294895493038196442881097566593344612847564823378678316527120190914564856692346034861045432664821339360726024914127372458700660631558817488152092096282925409171536436789259036001133053054882046652138414695194151160943305727036575959195309218611738193261179310511854807446237996274956735188575272489122793818301194912983367336244065664308602139494639522473719070217986094370277053921717629317675238467481846766940513200056812714526356082778577134275778960917363717872146844090122495343014654958537105079227968925892354201995611212902196086403441815981362977477130996051870721134999999837297804995105973173281609631859502445945534690830264252230825334468503526193118817101000313783875288658753320838142061717766914730359825349042875546873115956286388235378759375195778185778053217122680661300192787661119590921642019";

/// How a computed expansion stands to the reference.
#[derive(Debug, Clone, Copy, PartialEq, Eq)]
pub enum Comparison {
    /// The two differ first at `position`, counted from zero over the whole
    /// text, where one holds `found` and the other `expected`.
    FirstDifference { position: usize, found: char, expected: char },
    /// The shorter text, of `position` characters, is the start of the
    /// longer one.
    LengthMismatch { position: usize },
    /// The two are the same text of `length` characters.
    Identical { length: usize },
}

/// Whether `a` and `b` hold the same characters before `end`.
pub open spec fn agree_before(a: Seq<char>, b: Seq<char>, end: int) -> bool {
    forall|j: int| 0 <= j < end ==> a[j] == b[j]
}

/// The length of the shorter of the two.
pub open spec fn shorter_len(a: Seq<char>, b: Seq<char>) -> int {
    if a.len() <= b.len() {
        a.len() as int
    } else {
        b.len() as int
    }
}

/// What `compare_digits` reports for the two texts.
pub open spec fn comparison_holds(found: Seq<char>, reference: Seq<char>, r: Comparison) -> bool {
    match r {
        Comparison::FirstDifference { position, found: c, expected } => {
            &&& position < shorter_len(found, reference)
            &&& agree_before(found, reference, position as int)
            &&& found[position as int] == c
            &&& reference[position as int] == expected
            &&& c != expected
        },
        Comparison::LengthMismatch { position } => {
            &&& found.len() != reference.len()
            &&& position == shorter_len(found, reference)
            &&& agree_before(found, reference, position as int)
        },
        Comparison::Identical { length } => {
            &&& found == reference
            &&& length == found.len()
        },
    }
}

/// Compares `found` with `reference` character by character: the first
/// position at which they differ, or else whether one is longer than the
/// other.
pub fn compare_digits(found: &str, reference: &str) -> (r: Comparison)
    ensures
        comparison_holds(found@, reference@, r),
{
    let found_len = found.unicode_len();
    let reference_len = reference.unicode_len();
    let shorter = if found_len <= reference_len { found_len } else { reference_len };
    let mut i: usize = 0;
    while i < shorter
        invariant
            i <= shorter,
            shorter == shorter_len(found@, reference@),
            agree_before(found@, reference@, i as int),
        decreases shorter - i,
    {
        let c = found.get_char(i);
        let expected = reference.get_char(i);
        if c != expected {
            return Comparison::FirstDifference { position: i, found: c, expected };
        }
        i = i + 1;
    }
    if found_len != reference_len {
        Comparison::LengthMismatch { position: shorter }
    } else {
        assert(found@ =~= reference@);
        Comparison::Identical { length: shorter }
    }
}

/// Compares `found` with the reference expansion of pi.
pub fn compare_with_reference(found: &str) -> (r: Comparison)
    ensures
        comparison_holds(found@, PI_1000@, r),
{
    compare_digits(found, PI_1000)
}

} // verus!
