pub mod source_connector;
