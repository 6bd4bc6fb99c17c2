pub mod parser;
pub mod plainer;
pub mod status;
pub mod call_hd;
