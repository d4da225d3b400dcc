//! Service networking of a cluster node, and load balancers in the cloud.
//!
//! The service proxy keeps the NAT table of a node in line with services and their endpoints:
//! [`iptables`] holds its operations, [`nat_table`] the whole table, [`balance`] the rules of one
//! service port, [`rule`] the two ways to write a rule, [`probability`] the shares of endpoints,
//! [`session`] the steps of an operation and [`listing`] what the tools of the host show.
//!
//! The controller keeps load balancers in line with services: [`loadbalancer`] holds what it
//! does, [`reconcile`] how it deals with one service, [`node_port`] how node ports are given out
//! and [`cloud`] what is asked of a cloud provider.
//!
//! What holds across operations is stated in [`session_laws`], [`proxy_laws`], [`routing`],
//! [`table_laws`] and [`controller_laws`].
//!
//! What each operation does, told from what it is given, is stated for the proxy in
//! [`operation_laws`], [`step_laws`], [`port_laws`] and [`service_laws`], and for the controller in
//! [`request_laws`] and [`work_laws`]. [`command_laws`], [`text_laws`] and [`view_laws`] state what
//! commands, texts and values mean.

pub mod balance;
pub mod cloud;
pub mod command_laws;
pub mod controller_laws;
pub mod failure;
pub mod iptables;
pub mod listing;
pub mod loadbalancer;
pub mod nat_table;
pub mod node_port;
pub mod operation_laws;
pub mod port_laws;
pub mod probability;
pub mod proxy_laws;
pub mod reconcile;
pub mod request_laws;
pub mod routing;
pub mod rule;
pub mod service;
pub mod service_laws;
pub mod session;
pub mod session_laws;
pub mod step_laws;
pub mod table;
pub mod table_laws;
pub mod text;
pub mod text_laws;
pub mod view_laws;
pub mod work_laws;
