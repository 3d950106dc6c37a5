//! Reassembly of WebSocket messages from a stream of data frames.

pub mod assembly;
pub mod dataframe;
pub mod message;
pub mod receiver;
pub mod result;
pub mod role;
pub mod source;

pub use assembly::{Accumulator, Progress};
pub use dataframe::{DataFrame, Opcode, OpcodeClass};
pub use message::Message;
pub use receiver::{Receiver, WebSocketReceiver};
pub use result::WebSocketError;
pub use role::{Local, Remote, Role};
pub use source::{DataFrameSource, Recorded};
