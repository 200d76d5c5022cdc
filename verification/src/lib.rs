use vstd::prelude::*;

pub mod blob_dag;
pub mod bubble;
pub mod canonical;
pub mod codec;
pub mod compose;
pub mod config;
pub mod conflict;
pub mod digest;
pub mod discovery;
pub mod path_rewrite;
pub mod paths;
pub mod process;
pub mod inject;
pub mod json;
pub mod json_codec;
pub mod layer1;
pub mod layer2;
pub mod layer2_messages;
pub mod layer3;
pub mod merge;
pub mod protobuf;
pub mod session_origin;
pub mod snapshot;
pub mod storage;
pub mod sync;
pub mod text;
pub mod transcript;
pub mod transport;
pub mod transport_pull;
pub mod unified;
pub mod watcher;

verus! {
}
