pub mod application;
pub mod errors;
pub mod handlers;
pub mod message;
pub mod server;
pub mod session;
pub mod user;

pub use application::AppData;
pub use errors::MessageError;
pub use message::{Message, MessageBuilder, MessageType};
pub use server::Server;
pub use session::Session;
pub use user::User;
