//! The handlers of window events: what each decides, step by step. The
//! platform and the container tree are asked to act between the steps.

pub mod handle_window_destroyed;
pub mod handle_window_hidden;
