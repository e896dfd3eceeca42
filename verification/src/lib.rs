pub mod content;
pub mod err;
pub mod extraction;
pub mod fetch;
pub mod metadata;
pub mod orchestrator;
pub mod outline;
pub mod pages;
pub mod text;
pub mod training;
