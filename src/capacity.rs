//! Symbol versions, error-correction levels, and the byte-capacity tables.

use vstd::prelude::*;
use crate::error::SegmentError;

verus! {

/// The size of a QR symbol: a normal version `1..=40`, or a Micro QR
/// version `1..=4`.
#[derive(Clone, Copy, Debug, PartialEq, Eq, Structural)]
pub enum Version {
    Normal(i16),
    Micro(i16),
}

/// Error-correction strength, from the least redundant (`L`) to the most
/// redundant (`H`).
#[derive(Clone, Copy, Debug, PartialEq, Eq, Structural)]
pub enum EcLevel {
    L,
    M,
    Q,
    H,
}

impl EcLevel {
    /// Column of this level in the capacity table.
    pub open spec fn index(self) -> int {
        match self {
            EcLevel::L => 0,
            EcLevel::M => 1,
            EcLevel::Q => 2,
            EcLevel::H => 3,
        }
    }

    pub fn to_index(self) -> (r: usize)
        ensures
            r as int == self.index(),
    {
        match self {
            EcLevel::L => 0,
            EcLevel::M => 1,
            EcLevel::Q => 2,
            EcLevel::H => 3,
        }
    }
}

impl Version {
    /// Row of this version in a table that lists the 40 normal versions and
    /// then the 4 Micro versions; `None` for a version number out of range.
    pub open spec fn index(self) -> Option<int> {
        match self {
            Version::Normal(x) => if 1 <= x <= 40 { Some(x - 1) } else { None },
            Version::Micro(x) => if 1 <= x <= 4 { Some(x + 39) } else { None },
        }
    }

    pub fn to_index(&self) -> (r: Option<usize>)
        ensures
            r matches Some(i) ==> self.index() == Some(i as int),
            r is None ==> self.index() is None,
    {
        match *self {
            Version::Normal(x) => if 1 <= x && x <= 40 { Some((x - 1) as usize) } else { None },
            Version::Micro(x) => if 1 <= x && x <= 4 { Some((x + 39) as usize) } else { None },
        }
    }
}

/// Data bytes that a normal symbol holds in byte mode, by version (row
/// `v - 1`) and error-correction level (column `L, M, Q, H`).
pub const QR_DATA_LENGTHS: [[usize; 4]; 40] = [
    [19, 16, 13, 9],
    [34, 28, 22, 16],
    [55, 44, 34, 26],
    [80, 64, 48, 36],
    [108, 86, 62, 46],
    [136, 108, 76, 60],
    [156, 124, 88, 66],
    [194, 154, 110, 86],
    [232, 182, 132, 100],
    [274, 216, 154, 122],
    [324, 254, 180, 140],
    [370, 290, 206, 158],
    [428, 334, 244, 180],
    [461, 365, 261, 197],
    [523, 415, 295, 223],
    [589, 453, 325, 253],
    [647, 507, 367, 283],
    [721, 563, 397, 313],
    [795, 627, 445, 341],
    [861, 669, 485, 385],
    [932, 714, 512, 406],
    [1006, 782, 568, 442],
    [1094, 860, 614, 464],
    [1174, 914, 664, 514],
    [1276, 1000, 718, 538],
    [1370, 1062, 754, 596],
    [1468, 1128, 808, 628],
    [1531, 1193, 871, 661],
    [1631, 1267, 911, 701],
    [1735, 1373, 985, 745],
    [1843, 1455, 1033, 793],
    [1955, 1541, 1115, 845],
    [2071, 1631, 1171, 901],
    [2191, 1725, 1231, 961],
    [2306, 1812, 1286, 986],
    [2434, 1914, 1354, 1054],
    [2566, 1992, 1426, 1096],
    [2702, 2102, 1502, 1142],
    [2812, 2216, 1582, 1222],
    [2956, 2334, 1666, 1276],
];

/// Bytes of each normal version's capacity to hold back for the encoder's
/// own headers: 2 for versions 1 to 9, 3 for versions 10 to 40.
pub const QR_VERSION_SLACK: [usize; 40] = [
    2, 2, 2, 2, 2, 2, 2, 2, 2,
    3, 3, 3, 3, 3, 3, 3, 3, 3, 3, 3, 3, 3, 3, 3, 3, 3, 3, 3, 3, 3, 3, 3, 3, 3, 3, 3, 3, 3, 3, 3,
];

/// Entry `[row][col]` of [`QR_DATA_LENGTHS`].
pub open spec fn table_capacity(row: int, col: int) -> int {
    QR_DATA_LENGTHS@[row]@[col] as int
}

/// Total data bytes of a symbol of `version` at `ec`, or why there is none.
pub open spec fn capacity_spec(version: Version, ec: EcLevel) -> Result<int, SegmentError> {
    match version {
        Version::Micro(_) => Err(SegmentError::UnsupportedSizeClass),
        Version::Normal(x) => if 1 <= x <= 40 {
            Ok(table_capacity(x - 1, ec.index()))
        } else {
            Err(SegmentError::InvalidSizeClass)
        },
    }
}

/// Looks up the data capacity of a normal symbol.
pub fn capacity(version: Version, ec: EcLevel) -> (r: Result<usize, SegmentError>)
    ensures
        r matches Ok(n) ==> capacity_spec(version, ec) == Ok::<int, SegmentError>(n as int),
        r matches Err(e) ==> capacity_spec(version, ec) == Err::<int, SegmentError>(e),
{
    match version {
        Version::Micro(_) => Err(SegmentError::UnsupportedSizeClass),
        Version::Normal(x) => if 1 <= x && x <= 40 {
            let row = (x - 1) as usize;
            Ok(QR_DATA_LENGTHS[row][ec.to_index()])
        } else {
            Err(SegmentError::InvalidSizeClass)
        },
    }
}

/// Rows `row..40` of the table grow down each column, and shrink or stay
/// along each row.
spec fn ordered_from(row: int) -> bool
    decreases 40 - row,
{
    if row >= 40 || row < 0 {
        true
    } else {
        &&& table_capacity(row, 0) >= table_capacity(row, 1)
        &&& table_capacity(row, 1) >= table_capacity(row, 2)
        &&& table_capacity(row, 2) >= table_capacity(row, 3)
        &&& (row < 39 ==> forall|c: int| 0 <= c < 4 ==> table_capacity(row, c) <= table_capacity(row + 1, c))
        &&& ordered_from(row + 1)
    }
}

proof fn lemma_ordered_rows(start: int, row: int)
    requires
        0 <= start <= row < 40,
        ordered_from(start),
    ensures
        ordered_from(row),
    decreases row - start,
{
    if start < row {
        lemma_ordered_rows(start + 1, row);
    }
}

/// Capacity never shrinks from one normal version to the next at a fixed
/// level, and never grows from a weaker level to a stronger one at a fixed
/// version.
pub proof fn lemma_capacity_monotone(v: i16, ec: EcLevel, stronger: EcLevel)
    requires
        1 <= v <= 40,
        ec.index() <= stronger.index(),
    ensures
        v < 40 ==> capacity_spec(Version::Normal(v), ec)->Ok_0 <= capacity_spec(Version::Normal((v + 1) as i16), ec)->Ok_0,
        capacity_spec(Version::Normal(v), stronger)->Ok_0 <= capacity_spec(Version::Normal(v), ec)->Ok_0,
{
    assert(ordered_from(0)) by {
        reveal_with_fuel(ordered_from, 41);
    }
    lemma_ordered_rows(0, v - 1);
}

} // verus!
