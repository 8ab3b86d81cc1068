//! Governed case-server core: the request gates, ledgers, projections and
//! protocol catalog of a SEA Forge cell, with their contracts proved by Verus.
pub mod text;
pub mod json;
pub mod order;
pub mod envelope;
pub mod governed_execution_boundary;
pub mod invocation_history;
pub mod governed_work_ingress;
pub mod governed_settlement_return;
pub mod recovery;
pub mod identity;
pub mod request;
pub mod delegation;
pub mod agent_probe;
pub mod config;
pub mod case_dispatch;
pub mod sfwp;
