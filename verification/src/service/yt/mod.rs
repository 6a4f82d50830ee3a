pub mod ytdl;
pub mod ytmusic;
