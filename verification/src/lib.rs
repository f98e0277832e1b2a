//! A terminal multiplexer: sessions of windows of panes.
//!
//! - [`pane_grid`] is the screen of one terminal. Its parser hands out events
//!   ([`vt`]), which [`grid_print`], [`grid_csi`] and [`grid_events`] apply to the
//!   model of [`grid_model`]; [`snapshot`] is what it shows, and [`blocks`] what a
//!   shell marked of it.
//! - [`address`], [`id`] and [`genesis`] name things.
//! - [`session`], [`pane`] and [`layout`] describe them, [`arrange`] gives panes
//!   their places, and [`registry`] holds them.
//! - [`inproc`] is the multiplexer: every operation changes its model
//!   ([`inproc_model`]) and returns what is to be done with terminals.
//! - [`wire`], [`serve`] and [`dispatch`] are what the daemon is asked and what it
//!   answers; [`governed`] is what it does around a request, and [`audit`],
//!   [`praca`] and [`daemon_state`] what it keeps and tells.
//!
//! Public proof functions state what operations are for and what holds across them:
//! [`csi_laws`], [`scroll_laws`], [`pen_laws`], [`glyph_laws`] and [`mode_laws`] cell
//! by cell of what a terminal is sent; [`pane_laws`], [`block_laws`], [`cast_laws`]
//! and [`replay_laws`] of a pane, its commands, its recording and its picture;
//! [`layout_laws`] of where panes stand; [`spawn_laws`], [`inproc_laws`],
//! [`mux_laws`] and [`program_laws`] of the multiplexer and its programs, and
//! [`env_laws`] of what they find; [`request_laws`], [`access_laws`] and
//! [`dispatch_laws`] of requests and who may make them; [`memory_laws`] of what is
//! kept; [`text_laws`] and [`stream_laws`] of what texts and bytes stand for; and
//! others beside what they speak of.

pub mod access_laws;
pub mod address;
pub mod apc;
pub mod arrange;
pub mod audit;
pub mod auth;
pub mod block;
pub mod block_laws;
pub mod blocks;
pub mod capability;
pub mod cast;
pub mod cast_laws;
pub mod clock;
pub mod control;
pub mod csi_laws;
pub mod daemon_state;
pub mod digest;
pub mod dispatch;
pub mod dispatch_laws;
pub mod engate_wrap;
pub mod env_laws;
pub mod freio;
pub mod genesis;
pub mod glyph_laws;
pub mod governed;
pub mod graphics;
pub mod grid;
pub mod grid_csi;
pub mod grid_events;
pub mod grid_laws;
pub mod grid_model;
pub mod grid_print;
pub mod host_role;
pub mod id;
pub mod inproc;
pub mod inproc_events;
pub mod inproc_laws;
pub mod inproc_model;
pub mod inproc_panes;
pub mod inproc_sessions;
pub mod json;
pub mod keybind;
pub mod layout;
pub mod layout_laws;
pub mod live;
pub mod lookup;
pub mod memory_laws;
pub mod mode_laws;
pub mod modes;
pub mod mux_laws;
pub mod pane;
pub mod pane_grid;
pub mod pane_laws;
pub mod pane_snapshot;
pub mod pen_laws;
pub mod praca;
pub mod program_laws;
pub mod pty;
pub mod rawtext;
pub mod reap;
pub mod recording;
pub mod registry;
pub mod replay;
pub mod replay_laws;
pub mod request_laws;
pub mod scroll_laws;
pub mod seqops;
pub mod serve;
pub mod session;
pub mod sgr;
pub mod shutai;
pub mod snapshot;
pub mod spawn_env;
pub mod spawn_laws;
pub mod state_path;
pub mod stream_laws;
pub mod table;
pub mod text;
pub mod text_laws;
pub mod vt;
pub mod width_laws;
pub mod wire;
pub mod yurai;
