pub mod text;
pub mod argv;
pub mod cli;
pub mod parts;
pub mod plan;
pub mod page;
pub mod serve;
pub mod pipeline;
