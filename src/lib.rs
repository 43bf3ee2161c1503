//! Verified core of a lifetime-error repair engine: diagnostic scraping,
//! line patching, lifetime bound insertion, lifetime elision, helper renaming
//! and the compile/patch iteration driver.

pub mod names;
pub mod signature;
pub mod elision;
pub mod diagnostics;
pub mod patcher;
pub mod bounds;
pub mod renamer;
pub mod driver;
pub mod extracted_helper;
pub mod borrowed_output;

pub use bounds::repair_bounds_help;
pub use diagnostics::{CargoError, RustcError, RustcSpan};
pub use driver::{RepairResult, RepairSystem};
pub use elision::{elide_lifetimes_annotations, ElideLifetimeResult};
pub use patcher::repair_standard_help;
pub use renamer::{callee_renamer, RenameFn};
pub use signature::{FnSignature, LifetimeBound, LifetimeSite, LifetimeUse};
