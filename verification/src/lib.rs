pub mod chunk_outcome;
pub mod direction;
pub mod error;
pub mod ids;
pub mod prepare_outcome;
pub mod text;
pub mod transfer_snapshot;
pub mod transfer_status;
pub mod http_breakpoint;
pub mod default_http_client;
pub mod assoc;
pub mod inner_task;
pub mod status_record;
pub mod scheduler_state;
pub mod group_run;
pub mod sign;
pub mod listeners;
pub mod task_callbacks;
pub mod pounce_task;
pub mod meow_config;
pub mod client_gate;
