//! Managed SCHC contexts with verified rule management.

pub mod allocation;
pub mod application;
pub mod application_rules;
pub mod base64;
pub mod breakdown;
pub mod cbor;
pub mod coap;
pub mod codec;
pub mod command_flow;
pub mod command_outcome;
pub mod console;
pub mod context;
pub mod context_error;
pub mod data_command;
pub mod data_options;
pub mod duplicate_again;
pub mod duplicate_command;
pub mod duplicate_cost;
pub mod duplicate_operation;
pub mod duplicate_payload;
pub mod duplicate_service;
pub mod duplicate_tree;
pub mod endpoint;
pub mod error;
pub mod exchange;
pub mod flow;
pub mod flow_change;
pub mod inspection;
pub mod json;
pub mod leaf;
pub mod link;
pub mod link_types;
pub mod normal_form;
pub mod number;
pub mod options;
pub mod packet;
pub mod packet_loop;
pub mod path;
pub mod policy;
pub mod report;
pub mod report_text;
pub mod request;
pub mod rule;
pub mod rule_id;
pub mod rule_text;
pub mod selector;
pub mod service;
pub mod sid;
pub mod sort;
pub mod target;
pub mod text;
pub mod transaction;
pub mod update_command;
