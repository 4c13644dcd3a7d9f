//! Core of a design-space-exploration orchestrator: header summaries of
//! design and decision models, their partial order and dominance reduction,
//! the identification fixpoint engine, the registry of external modules,
//! exploration bids, and canonical text and binary header encodings.

pub mod bids;
pub mod codec_binary;
pub mod codec_text;
pub mod dominance;
pub mod engine;
pub mod engine_props;
pub mod headers;
pub mod models;
pub mod numfmt;
pub mod registry;
pub mod strutil;
pub mod workload;

pub use bids::choose_exploration_bid;
pub use bids::ExplorationBid;
pub use bids::ExplorationCombinationDescription;
pub use bids::ExplorationModule;
pub use codec_binary::decode_binary_decision_header;
pub use codec_binary::decode_binary_design_header;
pub use codec_binary::encode_binary_decision_header;
pub use codec_binary::encode_binary_design_header;
pub use codec_text::decode_text_decision_header;
pub use codec_text::decode_text_design_header;
pub use codec_text::encode_text_decision_header;
pub use codec_text::encode_text_design_header;
pub use dominance::compute_dominant_decision_models;
pub use engine::contains_equal_header;
pub use engine::identification_procedure;
pub use engine::merge_decision_headers;
pub use engine::IdentificationModule;
pub use engine::MarkedIdentificationRule;
pub use headers::ArcView;
pub use headers::DecisionHeaderView;
pub use headers::DecisionModelHeader;
pub use headers::DesignHeaderView;
pub use headers::DesignModelHeader;
pub use headers::LabelledArcWithPorts;
pub use models::DecisionModel;
pub use models::DesignModel;
pub use numfmt::parse_u64_decimal;
pub use numfmt::u32_to_string;
pub use registry::find_exploration_modules;
pub use registry::find_identification_modules;
pub use registry::ExternalExplorationModule;
pub use registry::ExternalIdentificationModule;
pub use registry::ExternalModuleType;
pub use registry::FileSystemEntry;
pub use workload::CommunicatingAndTriggeredReactiveWorkload;
