//! Verified core of UI Studio: path safety, asset inspection and validation,
//! inventory assembly, resource download planning and system probing logic.

pub mod text;
pub mod paths;
pub mod safety;
pub mod imaging;
pub mod validation;
pub mod inventory;
pub mod system;
pub mod format;
pub mod integrity;
pub mod resources;
pub mod worker;
pub mod laws;
pub mod probe;
