use vstd::prelude::*;

pub mod message_repository;
pub mod system;
pub mod text;
pub mod hashing;
pub mod affect_engine;
pub mod json;
pub mod batch_diff_handler;
pub mod pull_executor;
pub mod push_executor;
pub mod surface;
pub mod lifecycle_controller;
pub mod lifecycle_scheduler;
pub mod db_manager;
pub mod urls;
pub mod diary_manager;
pub mod vcp_client;
pub mod request_control;
pub mod vcp_stream;
pub mod vcp_request;
pub mod vcp_log;
pub mod media;
pub mod performance;
pub mod stream_service;
pub mod affect_recognizer;
pub mod db_write_queue;
pub mod delete_executor;
pub mod sync_finalize;
pub mod sync_dto;

verus! {

} // verus!
