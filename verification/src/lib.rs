//! A verified agent runtime core: messages, graphs, hooks, sessions, tools and
//! provider request/response mapping.

pub mod text;
pub mod json;
pub mod error;
pub mod sys;
pub mod message;
pub mod builder;
pub mod input;
pub mod event;
pub mod graph_state;
pub mod graph_edge;
pub mod assoc;
pub mod graph_node;
pub mod graph;
pub mod graph_runner;
pub mod graph_query;
pub mod graph_spec;
pub mod graph_runtime;
pub mod graph_engine;
pub mod templates;
pub mod llm_model;
pub mod tool_schema;
pub mod llm_request;
pub mod openai;
pub mod deepseek;
pub mod hook;
pub mod definition;
pub mod context;
pub mod agent_smoke;
pub mod tool;
pub mod tool_registry;
pub mod session;
pub mod turn_loop;
pub mod agent;
pub mod llm_registry;
pub mod boundary;
pub mod mobile_prompt;
pub mod task_context;
pub mod trajectory;
pub mod app_map;
pub mod mobile_tools;
pub mod cross_app_task;
