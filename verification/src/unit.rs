//! The status model: a unit's identity and reported state, with its
//! mathematical view.

use vstd::prelude::*;
use crate::status::ServiceStatus;

verus! {

/// Ghost picture of a unit: every text field as a sequence of characters.
pub ghost struct UnitView {
    pub name: Seq<char>,
    pub status: ServiceStatus,
    pub description: Option<Seq<char>>,
    pub enabled: bool,
    pub active: bool,
    pub load_state: Seq<char>,
    pub sub_state: Seq<char>,
}

impl UnitView {
    /// The activity flag agrees with the derived status.
    pub open spec fn wf(self) -> bool {
        self.active == (self.status is Active)
    }
}

/// A unit's identity and reported state.  `active` always agrees with
/// `status`; `enabled` is known only from a detailed property query and is
/// false on bulk listings.
#[derive(Clone, Debug)]
pub struct ServiceInfo {
    pub name: String,
    pub status: ServiceStatus,
    pub description: Option<String>,
    pub enabled: bool,
    pub active: bool,
    pub load_state: String,
    pub sub_state: String,
}

impl View for ServiceInfo {
    type V = UnitView;

    open spec fn view(&self) -> UnitView {
        UnitView {
            name: self.name@,
            status: self.status,
            description: match self.description {
                Some(d) => Some(d@),
                None => None,
            },
            enabled: self.enabled,
            active: self.active,
            load_state: self.load_state@,
            sub_state: self.sub_state@,
        }
    }
}

/// The sequence of views of a vector of units.
pub open spec fn units_view(v: Seq<ServiceInfo>) -> Seq<UnitView> {
    v.map_values(|u: ServiceInfo| u@)
}

} // verus!
