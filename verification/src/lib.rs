//! The workspace layout core of a scrollable-tiling window manager.

pub mod activity;
pub mod agreeing;
pub mod aiming;
pub mod arrange;
pub mod arraying;
pub mod beginnings;
pub mod belonging;
pub mod bookends;
pub mod bookmarks;
pub mod carrying;
pub mod census;
pub mod changing;
pub mod coherence;
pub mod commands;
pub mod config;
pub mod connect;
pub mod connecting;
pub mod conveying;
pub mod cores;
pub mod declaring;
pub mod departing;
pub mod disbanding;
pub mod disconnect;
pub mod disconnecting;
pub mod dropping;
pub mod enrolling;
pub mod errors;
pub mod finding;
pub mod gestures;
pub mod hauling;
pub mod ids;
pub mod inserting;
pub mod interactive;
pub mod invariants;
pub mod joining;
pub mod keeping;
pub mod keeping_outputs;
pub mod keeping_views;
pub mod layout;
pub mod listing;
pub mod load;
pub mod lookup;
pub mod materialize;
pub mod membership;
pub mod mending;
pub mod monitor;
pub mod moves;
pub mod naming;
pub mod outputs;
pub mod parking;
pub mod placing;
pub mod persisting;
pub mod pool;
pub mod promises;
pub mod recency;
pub mod reclaim;
pub mod reconcile;
pub mod reload;
pub mod reloading;
pub mod rendering;
pub mod reordering;
pub mod repairing;
pub mod rostering;
pub mod routing;
pub mod search;
pub mod settling;
pub mod switching;
pub mod tallying;
pub mod tending;
pub mod text;
pub mod titling;
pub mod transfer;
pub mod turning;
pub mod upholding;
pub mod upkeep;
pub mod view;
pub mod abiding;
pub mod lasting;
pub mod operations;
pub mod ordering;
pub mod outages;
pub mod resting;
pub mod restoring;
pub mod retaining;
pub mod returning;
pub mod shipping;
pub mod soundness;
pub mod sparing;
pub mod steadying;
pub mod sticking;
pub mod strips;
pub mod wholeness;
pub mod windows;
pub mod workspace;
