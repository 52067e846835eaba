pub mod text;
pub mod numbers;
pub mod types;
pub mod risk_taxonomy;
pub mod timeline;
pub mod patterns;
pub mod desensitize;
pub mod layout;
pub mod document;
pub mod headings;
pub mod candidates;
pub mod body_text;
pub mod section_body;
pub mod sectionize;
pub mod tables;
pub mod injection;
pub mod orphans;
pub mod knowledge;
pub mod read_section;
pub mod rag;
pub mod coordination;
pub mod dynamic_agents;
pub mod legal_verify;
pub mod links;
pub mod routing;
pub mod api;
pub mod chat;
pub mod review_loop;
pub mod review_step;
pub mod tools;
pub mod blind_spot;
pub mod laws;
