pub mod wire;
pub mod protocol;
pub mod handshake_parser;
pub mod rdb_file_parser;
pub mod args_parse;
pub mod roundtrip;
