//! The logic of a desktop health widget, verified: text and number formats,
//! protocols, state machines and decisions. Windows, processes, sockets and
//! files live in the program around this library.

pub mod alice;
pub mod audio;
pub mod autopilot;
pub mod avatar;
pub mod awake;
pub mod bytes;
pub mod call_store;
pub mod calls_web;
pub mod chat;
pub mod cli;
pub mod clip;
pub mod clock;
pub mod config;
pub mod contexts;
pub mod data;
pub mod deepseek;
pub mod detect;
pub mod float;
pub mod frames;
pub mod hr_reply;
pub mod instance;
pub mod json;
pub mod keys;
pub mod kwin_shot;
pub mod mux;
pub mod paths;
pub mod pictures;
pub mod pilot;
pub mod pilot_notify;
pub mod pilot_scan;
pub mod pilot_stats;
pub mod pilot_summary;
pub mod prompts;
pub mod recorder;
pub mod robot;
pub mod screencast;
pub mod screenshot;
pub mod sound;
pub mod tartarus;
pub mod telemetry;
pub mod text;
pub mod theme;
pub mod transcribe;
pub mod transcript_log;
pub mod webmic;
pub mod websocket;
pub mod winagent;
pub mod winctl;
pub mod window;
