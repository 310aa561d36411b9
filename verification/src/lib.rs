pub mod append;
pub mod cache;
pub mod catchup;
pub mod catchup_laws;
pub mod chunk_file;
pub mod chunk_index;
pub mod chunk_map;
pub mod chunk_map_laws;
pub mod chunker;
pub mod cluster;
pub mod content_laws;
pub mod decision_laws;
pub mod delta;
pub mod digest;
pub mod disk_laws;
pub mod dispatch;
pub mod drain;
pub mod entry_laws;
pub mod file_ops;
pub mod loc_list;
pub mod locations;
pub mod loops;
pub mod metadata;
pub mod names;
pub mod node_laws;
pub mod order_laws;
pub mod patch;
pub mod patch_bytes;
pub mod patch_flow;
pub mod proc_net;
pub mod protocol;
pub mod record_laws;
pub mod repair;
pub mod repair_laws;
pub mod repair_run;
pub mod report_laws;
pub mod requests;
pub mod rewrite_run;
pub mod server;
pub mod server_laws;
pub mod shared_maps;
pub mod state_laws;
pub mod stats;
pub mod storage;
pub mod store_batch;
pub mod text;
pub mod text_laws;
pub mod transfer;
pub mod types;
pub mod watchdog;
pub mod write_laws;
pub mod write_path;
