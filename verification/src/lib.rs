pub mod blocking;
pub mod body;
pub mod catalog;
pub mod compose;
pub mod downloads;
pub mod files;
pub mod forms;
pub mod hierarchy;
pub mod importer;
pub mod mcp;
pub mod models;
pub mod navigation;
pub mod net;
pub mod order;
pub mod reactions;
pub mod refresh;
pub mod rings;
pub mod state;
pub mod text;
pub mod thread;
pub mod thread_view;
pub mod timeline;
pub mod urls;
