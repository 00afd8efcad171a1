//! Parsing of latency-histogram log documents into a verified data
//! model: an exact decimal number type, percentile rows, histogram
//! sections and their ordered collection, a recursive-descent parser
//! proved equivalent to the grammar it implements, the transport
//! decoding in front of it, and the layout of parsed data for the two
//! chart kinds.
pub mod decode;
pub mod hgrm;
pub mod parser;
pub mod renderer;
