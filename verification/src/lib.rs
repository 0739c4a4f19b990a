//! Kachi Clash: the rules of a Grand Sumo prediction game.

pub mod text;
pub mod utf8_text;
pub mod rank;
pub mod order;
pub mod lex;
pub mod dates;
pub mod basho_id;
pub mod basho;
pub mod banzuke_table;
pub mod sumo_api;
pub mod sumodb;
pub mod mac;
pub mod player;
pub mod leaders;
pub mod push;
pub mod util;
pub mod heya;
pub mod pages;
pub mod web_url;
pub mod config;
pub mod auth;
pub mod award;
pub mod poll;
pub mod basho_info;
pub mod api_query;
pub mod enter_picks;
