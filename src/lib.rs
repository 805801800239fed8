//! A bridge from a publish/subscribe broker to a relational store: the
//! metric catalog, the topic router, the message processor, the storage
//! provisioning rules and the connection lifecycle, each with its contract.
mod outside;

pub mod catalog;
pub mod config;
pub mod error;
pub mod lifecycle;
pub mod processor;
pub mod router;
pub mod storage;
