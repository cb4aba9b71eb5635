//! A streaming, event-driven JSON reader with an XML event sink.
//!
//! Bytes flow one way: a [`byte_source::ByteSource`] feeds the
//! [`json_lexer::JSONLexer`], whose lexical tokens the
//! [`json_parser::JSONLexerToParser`] raises to parser tokens for a consumer such
//! as [`json2xml::JSON2XMLConsumer`].

pub mod ascii;
pub mod text;
pub mod byte_source;
pub mod number_grammar;
pub mod json_lexer;
pub mod lexer_machine;
pub mod lexer_run;
pub mod json_parser;
pub mod nesting;
pub mod document;
pub mod xml_text;
pub mod cdata;
pub mod json2xml;
pub mod sink_run;
