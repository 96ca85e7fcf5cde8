//! The items that most programs need.

pub use crate::context::Context;
pub use crate::exception::Exception;
pub use crate::expression::Expression;
pub use crate::host::Host;
pub use crate::intrinsics::init_context;
pub use crate::parser::Parser;
pub use crate::util::nil;
