//! The schema version embedded in every persisted record: a semantic
//! triple, compared lexicographically.

use vstd::prelude::*;

verus! {

/// The structural-shape tag carried by each persisted record.
#[derive(Clone, Copy, Debug, PartialEq, Eq, Structural)]
pub struct SchemaVersion {
    pub major: u64,
    pub minor: u64,
    pub patch: u64,
}

/// Lexicographic order on version triples.
pub open spec fn version_le(a: SchemaVersion, b: SchemaVersion) -> bool {
    if a.major != b.major {
        a.major < b.major
    } else if a.minor != b.minor {
        a.minor < b.minor
    } else {
        a.patch <= b.patch
    }
}

/// The version this crate writes into fresh records.
pub open spec fn spec_current_version() -> SchemaVersion {
    SchemaVersion { major: 0, minor: 6, patch: 2 }
}

/// The oldest version whose records carry language statistics.
pub open spec fn spec_languages_since() -> SchemaVersion {
    SchemaVersion { major: 0, minor: 6, patch: 0 }
}

/// The character for one decimal digit value.
pub open spec fn spec_digit_char(d: nat) -> char {
    if d == 0 {
        '0'
    } else if d == 1 {
        '1'
    } else if d == 2 {
        '2'
    } else if d == 3 {
        '3'
    } else if d == 4 {
        '4'
    } else if d == 5 {
        '5'
    } else if d == 6 {
        '6'
    } else if d == 7 {
        '7'
    } else if d == 8 {
        '8'
    } else {
        '9'
    }
}

/// Decimal digits of `n`, most significant first.
pub open spec fn spec_decimal(n: nat) -> Seq<char>
    decreases n,
{
    if n < 10 {
        seq![spec_digit_char(n)]
    } else {
        spec_decimal(n / 10) + seq![spec_digit_char(n % 10)]
    }
}

impl SchemaVersion {
    pub fn new(major: u64, minor: u64, patch: u64) -> (v: SchemaVersion)
        ensures
            v == (SchemaVersion { major, minor, patch }),
    {
        SchemaVersion { major, minor, patch }
    }

    /// True when `self` is `other` or a later version.
    pub fn is_at_least(&self, other: &SchemaVersion) -> (r: bool)
        ensures
            r == version_le(*other, *self),
    {
        if self.major != other.major {
            self.major > other.major
        } else if self.minor != other.minor {
            self.minor > other.minor
        } else {
            self.patch >= other.patch
        }
    }

    /// A rendering such as `0.6.2`, for display by callers.
    pub fn to_text(&self) -> (s: String)
        ensures
            s@ == spec_decimal(self.major as nat) + "."@ + spec_decimal(self.minor as nat)
                + "."@ + spec_decimal(self.patch as nat),
    {
        let mut s = render_u64(self.major);
        s.append(".");
        let minor = render_u64(self.minor);
        s.append(minor.as_str());
        s.append(".");
        let patch = render_u64(self.patch);
        s.append(patch.as_str());
        s
    }
}

/// The version written by this build of the crate.
pub fn current_version() -> (v: SchemaVersion)
    ensures
        v == spec_current_version(),
{
    SchemaVersion { major: 0, minor: 6, patch: 2 }
}

/// The oldest version whose records carry language statistics.
pub fn languages_since() -> (v: SchemaVersion)
    ensures
        v == spec_languages_since(),
{
    SchemaVersion { major: 0, minor: 6, patch: 0 }
}

/// Decimal rendering of `n`, most significant digit first.
pub fn render_u64(n: u64) -> (s: String)
    ensures
        s@ == spec_decimal(n as nat),
    decreases n,
{
    if n < 10 {
        digit_string((n % 10) as u8)
    } else {
        let mut s = render_u64(n / 10);
        let d = digit_string((n % 10) as u8);
        s.append(d.as_str());
        s
    }
}

/// A one-character string for one decimal digit value.
fn digit_string(d: u8) -> (s: String)
    requires
        d < 10,
    ensures
        s@ == seq![spec_digit_char(d as nat)],
{
    proof {
        reveal_strlit("0");
        reveal_strlit("1");
        reveal_strlit("2");
        reveal_strlit("3");
        reveal_strlit("4");
        reveal_strlit("5");
        reveal_strlit("6");
        reveal_strlit("7");
        reveal_strlit("8");
        reveal_strlit("9");
    }
    let lit: &str = match d {
        0 => "0",
        1 => "1",
        2 => "2",
        3 => "3",
        4 => "4",
        5 => "5",
        6 => "6",
        7 => "7",
        8 => "8",
        _ => "9",
    };
    let s = String::from_str(lit);
    proof {
        assert(s@ =~= seq![spec_digit_char(d as nat)]);
    }
    s
}

} // verus!
