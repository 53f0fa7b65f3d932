pub mod api;
pub mod bridge;
pub mod codes;
pub mod config;
pub mod data_struct;
pub mod fanout;
pub mod route;
pub mod store;
pub mod table_entree;
