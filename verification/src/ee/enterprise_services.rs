//! The order in which the enterprise services are brought up.

use vstd::prelude::*;

verus! {

/// The services of the enterprise edition, each started once at start-up.
#[derive(Debug, Clone, Copy, PartialEq, Eq, Structural)]
pub enum EnterpriseService {
    LicenseManager,
    StorageEncryption,
    Vacuum,
    AggregatingIndex,
    DataMask,
    BackgroundService,
    VirtualColumn,
}

/// The start-up of the enterprise edition.
pub struct EnterpriseServices;

impl EnterpriseServices {
    /// The order in which the services start: the license manager first,
    /// since the others ask it for leave.
    pub open spec fn spec_init_order() -> Seq<EnterpriseService> {
        seq![
            EnterpriseService::LicenseManager,
            EnterpriseService::StorageEncryption,
            EnterpriseService::Vacuum,
            EnterpriseService::AggregatingIndex,
            EnterpriseService::DataMask,
            EnterpriseService::BackgroundService,
            EnterpriseService::VirtualColumn,
        ]
    }

    /// The service to start after `started` services are up, or `None` once
    /// all of them are.
    pub fn next_to_init(started: usize) -> (next: Option<EnterpriseService>)
        ensures
            started < Self::spec_init_order().len() ==> next == Some(
                Self::spec_init_order()[started as int],
            ),
            started >= Self::spec_init_order().len() ==> next is None,
    {
        match started {
            0 => Some(EnterpriseService::LicenseManager),
            1 => Some(EnterpriseService::StorageEncryption),
            2 => Some(EnterpriseService::Vacuum),
            3 => Some(EnterpriseService::AggregatingIndex),
            4 => Some(EnterpriseService::DataMask),
            5 => Some(EnterpriseService::BackgroundService),
            6 => Some(EnterpriseService::VirtualColumn),
            _ => None,
        }
    }
}

} // verus!
