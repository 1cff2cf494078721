//! Detection rules for event records.
//!
//! A rule names selections, each of which asks something of the values of an event record, and
//! combines them in a condition. [`rule::RuleNode`] is a rule: it is made from YAML, set up, and
//! then asked which event records it detects.
//!
//! The modules whose names end in `_laws` hold what is proved of the library as a whole.
pub mod aggregation;
pub mod aggregation_laws;
pub mod condition;
pub mod condition_laws;
pub mod detection_laws;
pub mod event;
pub mod event_laws;
pub mod expression_laws;
pub mod grammar;
pub mod grammar_laws;
pub mod lexer_laws;
pub mod matcher;
pub mod matcher_laws;
pub mod model_laws;
pub mod parser_laws;
pub mod pattern;
pub mod rule;
pub mod rule_laws;
pub mod selection;
pub mod selection_laws;
pub mod table;
pub mod text;
pub mod text_laws;
pub mod token;
pub mod utils;
pub mod yaml;
pub mod yaml_laws;
