//! The core of an HTTP/2 endpoint: the frames, the header compression
//! (HPACK) and what a connection does about what comes in. Nothing here
//! touches a socket: bytes come in as slices and go out as vectors.

pub mod connection;
pub mod enhanced_slice;
pub mod error;
pub mod frames;
pub mod hpack;
pub mod maybe_owned_slice;
pub mod ordering;
pub mod parsers;
pub mod serializers;
pub mod settings;
pub mod sliceable;

pub use connection::{handshake, Config, Connection};
pub use error::{Error, ALL_ERRORS};
pub use frames::{
    Frame, FrameHeader, GoAwayFrame, PriorityFrame, PriorityInHeadersFrame, ReceivedHeadersFrame,
    SendFrame, SendHeadersFrame, SendHeadersFrameBuilder, SettingsFrame,
};
pub use hpack::{DecoderField, EncoderField};
pub use settings::{SettingKey, Settings, ALL_SETTING_KEYS};
pub use sliceable::{AnySliceable, Sliceable};
