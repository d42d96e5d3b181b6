pub mod client_entity_manager;
pub mod client_entity_message;
pub mod entity_type;
pub mod server_entity_manager;
