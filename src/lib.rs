//! A live-media streaming engine: RTSP 1.0 signalling, RTP packetization of
//! H.264 bitstreams, and mount and session bookkeeping, each step stated
//! as a contract and proved.

pub mod annexb;
pub mod config;
pub mod delivery;
pub mod error;
pub mod h264;
pub mod handler;
pub mod mount;
pub mod packetizer;
pub mod request;
pub mod response;
pub mod rtp;
pub mod sdp;
pub mod session;
pub mod text;
pub mod transport;

pub use config::ServerConfig;
pub use delivery::{ClientInfo, Destination, Viewer};
pub use error::{ParseError, ParseErrorKind, RtspError};
pub use h264::{H264Packetizer, DEFAULT_MTU};
pub use handler::MethodHandler;
pub use mount::{extract_mount_path, Mount, MountRegistry, DEFAULT_MOUNT_PATH};
pub use packetizer::Packetizer;
pub use request::{parse_request, RtspRequest};
pub use response::{RtspResponse, SERVER_AGENT};
pub use rtp::RtpHeader;
pub use sdp::generate_sdp;
pub use session::{PlaybackState, Session, SessionManager, SessionState};
pub use transport::{parse_transport_header, Transport, TransportHeader};
