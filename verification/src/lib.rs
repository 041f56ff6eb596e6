//! Deterministic core of a simulator for autonomous vehicles: map generation, routing, random
//! streams, clocks, contacts and controller decisions, with contracts proved by Verus.

pub mod batch;
pub mod cache;
pub mod cascade;
pub mod config;
pub mod contact;
pub mod drainage;
pub mod dynamics;
pub mod farmland;
pub mod flood;
pub mod fraction;
pub mod frames;
pub mod geometry;
pub mod grid;
pub mod ground_actions;
pub mod ground_control;
pub mod heap;
pub mod ieee;
pub mod json;
pub mod lakes;
pub mod landcover;
pub mod linalg;
pub mod mapping;
pub mod material;
pub mod modes;
pub mod network;
pub mod noise;
pub mod preview;
pub mod report;
pub mod rng;
pub mod roads;
pub mod routing;
pub mod scatter;
pub mod search;
pub mod shore;
pub mod shuffle;
pub mod sorting;
pub mod spline;
pub mod terrain;
pub mod text;
pub mod time;
pub mod tuning;
