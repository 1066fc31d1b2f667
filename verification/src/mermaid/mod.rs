//! The graph of services and operations around one service, made from the
//! call chains of a data set.

pub mod scope;
pub mod service_oper_graph;
pub mod trace_data;
pub mod trace_forrest;
pub mod trace_paths;
