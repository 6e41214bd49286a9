//! SSH tunnels kept by name: their command lines, the import of pasted commands, and the state
//! machine that starts, watches and restarts the processes behind them.

pub mod argument_laws;
pub mod command_laws;
pub mod display;
pub mod display_laws;
pub mod editor;
pub mod form_laws;
pub mod forward_laws;
pub mod import_laws;
pub mod launch_laws;
pub mod list_laws;
pub mod model;
pub mod model_laws;
pub mod parser;
pub mod process;
pub mod process_laws;
pub mod storage;
pub mod store;
pub mod store_laws;
pub mod text;
pub mod text_laws;
pub mod word_laws;
