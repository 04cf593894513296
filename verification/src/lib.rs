pub mod client_ui;
pub mod codec;
pub mod ident;
pub mod msg;
pub mod registry;
pub mod router;
pub mod session;
pub mod strutil;
