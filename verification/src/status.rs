//! The coarse lifecycle state of a unit, derived from the manager's
//! `ActiveState` text by a case-insensitive lookup.

use vstd::prelude::*;

verus! {

/// Whether a unit is running, stopped, broken, or reported something else.
#[derive(Clone, Copy, Debug, PartialEq, Eq, Structural)]
pub enum ServiceStatus {
    Active,
    Inactive,
    Failed,
    Unknown,
}

/// The code point of `c` with an ASCII capital letter folded to lower case;
/// every other character is left as it is.
pub open spec fn spec_lower_code(c: char) -> u32 {
    if 65 <= c as u32 && c as u32 <= 90 {
        (c as u32 + 32) as u32
    } else {
        c as u32
    }
}

/// Equality of two texts up to ASCII case.
pub open spec fn eq_ignore_case(a: Seq<char>, b: Seq<char>) -> bool {
    a.len() == b.len() && forall|i: int|
        0 <= i < a.len() ==> spec_lower_code(a[i]) == spec_lower_code(b[i])
}

/// The status that a given `ActiveState` text denotes.
pub open spec fn spec_status_of(s: Seq<char>) -> ServiceStatus {
    if eq_ignore_case(s, "active"@) {
        ServiceStatus::Active
    } else if eq_ignore_case(s, "inactive"@) {
        ServiceStatus::Inactive
    } else if eq_ignore_case(s, "failed"@) {
        ServiceStatus::Failed
    } else {
        ServiceStatus::Unknown
    }
}

/// The canonical capitalized rendering of a status.
pub open spec fn spec_status_label(st: ServiceStatus) -> Seq<char> {
    match st {
        ServiceStatus::Active => "Active"@,
        ServiceStatus::Inactive => "Inactive"@,
        ServiceStatus::Failed => "Failed"@,
        ServiceStatus::Unknown => "Unknown"@,
    }
}

/// ASCII-lower-cased code point of one character.
fn lower_code(c: char) -> (r: u32)
    ensures
        r == spec_lower_code(c),
{
    let u = c as u32;
    if 65 <= u && u <= 90 {
        u + 32
    } else {
        u
    }
}

/// Compares two texts for equality up to ASCII case.
pub fn eq_ignore_case_str(a: &str, b: &str) -> (r: bool)
    ensures
        r == eq_ignore_case(a@, b@),
{
    let na = a.unicode_len();
    let nb = b.unicode_len();
    if na != nb {
        return false;
    }
    let mut i: usize = 0;
    while i < na
        invariant
            na == a@.len(),
            na == b@.len(),
            i <= na,
            forall|j: int| 0 <= j < i ==> spec_lower_code(a@[j]) == spec_lower_code(b@[j]),
        decreases na - i,
    {
        let ca = a.get_char(i);
        let cb = b.get_char(i);
        if lower_code(ca) != lower_code(cb) {
            return false;
        }
        i = i + 1;
    }
    true
}

impl ServiceStatus {
    /// Reads a status from an `ActiveState` text, case-insensitively;
    /// an unrecognized token yields `Unknown`, never an error.
    pub fn from(s: &str) -> (r: ServiceStatus)
        ensures
            r == spec_status_of(s@),
    {
        if eq_ignore_case_str(s, "active") {
            ServiceStatus::Active
        } else if eq_ignore_case_str(s, "inactive") {
            ServiceStatus::Inactive
        } else if eq_ignore_case_str(s, "failed") {
            ServiceStatus::Failed
        } else {
            ServiceStatus::Unknown
        }
    }

    /// The canonical capitalized rendering of this status.
    pub fn label(&self) -> (r: &'static str)
        ensures
            r@ == spec_status_label(*self),
    {
        match self {
            ServiceStatus::Active => "Active",
            ServiceStatus::Inactive => "Inactive",
            ServiceStatus::Failed => "Failed",
            ServiceStatus::Unknown => "Unknown",
        }
    }
}

/// Reading a status back from its canonical rendering gives the same status:
/// the label of each status is itself recognized, case-insensitively, as
/// exactly that status.
pub proof fn lemma_status_label_round_trip(st: ServiceStatus)
    ensures
        spec_status_of(spec_status_label(st)) == st,
{
    reveal_strlit("active");
    reveal_strlit("inactive");
    reveal_strlit("failed");
    reveal_strlit("Active");
    reveal_strlit("Inactive");
    reveal_strlit("Failed");
    reveal_strlit("Unknown");
    match st {
        ServiceStatus::Active => {
            assert(eq_ignore_case("Active"@, "active"@));
        },
        ServiceStatus::Inactive => {
            assert(!eq_ignore_case("Inactive"@, "active"@));
            assert(eq_ignore_case("Inactive"@, "inactive"@));
        },
        ServiceStatus::Failed => {
            assert(spec_lower_code("Failed"@[0]) != spec_lower_code("active"@[0]));
            assert(!eq_ignore_case("Failed"@, "active"@));
            assert(!eq_ignore_case("Failed"@, "inactive"@));
            assert(eq_ignore_case("Failed"@, "failed"@));
        },
        ServiceStatus::Unknown => {
            assert(!eq_ignore_case("Unknown"@, "active"@));
            assert(!eq_ignore_case("Unknown"@, "inactive"@));
            assert(!eq_ignore_case("Unknown"@, "failed"@));
        },
    }
}

/// Rendering the status read from any text, and reading it back, changes
/// nothing: deriving a status from free-form text is idempotent through its
/// canonical rendering.
pub proof fn lemma_status_of_canonical(s: Seq<char>)
    ensures
        spec_status_of(spec_status_label(spec_status_of(s))) == spec_status_of(s),
{
    lemma_status_label_round_trip(spec_status_of(s));
}

} // verus!
