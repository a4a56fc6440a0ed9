pub mod app;
pub mod view;
