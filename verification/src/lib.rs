pub mod activation;
pub mod evaluation;
pub mod listing;
pub mod order;
pub mod plugin;
pub mod result;
