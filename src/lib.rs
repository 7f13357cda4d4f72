pub mod actor;
pub mod any;
pub mod decode;
pub mod encode;
pub mod errors;
pub mod fee;
pub mod handles;
pub mod inputs;
pub mod kernel;
pub mod memory_db;
pub mod model;
pub mod resource;
pub mod scrypto_value;
pub mod types;
pub mod type_id;
pub mod values;
pub mod wasm_bridge;
