//! Font locators: the value type that says where a font's bytes live, the
//! contract that every locator backend meets when it resolves font
//! selections, and the factory that picks a backend from configuration.
pub mod handle;
pub mod locator;
pub mod selection;

pub use handle::{FontDataHandle, HandleView};
pub use locator::{
    load_fonts_with, new_locator, FontLocator, FontLocatorSelection, LocatorError, NopSystemSource,
};
pub use selection::{AttributesView, FontAttributes, FontStyle, LoadedSet};
