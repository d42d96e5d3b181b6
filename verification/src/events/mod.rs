pub mod event_manager;
pub mod event_type;
