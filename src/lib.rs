//! Validation of Belgian national registry numbers and of the reporting
//! period codes found in payroll reconciliation documents.

pub mod dmfa;
pub mod period;
pub mod rrn;
pub mod text;

pub use dmfa::{DmfaError, DmfaReader};
pub use period::{BosaMonth, CipalMonth, Kwartaal, KwartaalError, MonthError};
pub use rrn::{Gender, Rrn, RrnError};
