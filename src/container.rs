pub mod text;
pub mod lifecycle;
pub mod workspace;
