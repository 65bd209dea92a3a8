//! Verified core logic of the rtwKit package set.

pub mod codec;
pub mod text;
pub mod version;
pub mod registry;
pub mod web;
pub mod catalog;
pub mod resolve;
pub mod order;
pub mod plan;
pub mod messages;
pub mod manager;
pub mod dispatch;
pub mod listing;
pub mod install;
pub mod install_flow;
pub mod surface;
pub mod screens;
pub mod tavern;
pub mod tavern_card;
pub mod chat;
pub mod charlib;
pub mod chat_view;
pub mod chat_system;
pub mod chat_ui;
