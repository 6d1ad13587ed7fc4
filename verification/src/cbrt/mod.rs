pub mod codec;
pub mod crc;
pub mod floats;
pub mod laws;
pub mod names;
pub mod parser;
pub mod report;
pub mod samples;
pub mod scan;
pub mod session;
pub mod transformer;
